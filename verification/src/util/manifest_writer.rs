//! A utility for going through manifests (JSON files) and reading/writing data to/from them.
//!
//! The reader works on the bytes of the file it reads and produces the bytes of the file it
//! writes; opening, replacing and closing the files is up to the caller.
use vstd::prelude::*;
use vstd::utf8::encode_utf8;
use crate::text::{latin1_bytes, unlatin1, push_char, byte_char, byte_is_numeric, byte_is_ws, byte_to_char, is_numeric, is_ws, latin1, latin1_string, surround_char, two_chars};
use crate::json::{json_bytes_accepted, json_value_of_bytes, json_value_text, json_value_from_bytes, json_value_to_bytes, invalid_seek_error, io_error_text, json_error_text};
use super::manifest_spec::{
    containers, lemma_overwrite_concat, lemma_scan_bounds, lit_mismatch, msg_colon, msg_digit, msg_expected, msg_object, msg_open, msg_start,
    numeric_end, overwrite, buffer_of, ItemSpec, skip_sep, skip_ws, string_stop, ErrSpec, MachineSpec,
    ManifestParseState, NodeSpec, SinkSpec, StepResult, ALSE, BACKSLASH, CLOSE_BRACE,
    CLOSE_BRACKET, COLON, COMMA, MINUS, OPEN_BRACE, OPEN_BRACKET, QUOTE, RUE, ULL,
};

verus! {

/// An error of the manifest reader/writer.
#[derive(Debug)]
pub enum ManifestError {
    /// An error thrown by the writer or reader.
    StdErr(std::io::Error),
    SerdeJsonErr(serde_json::Error),
    /// If we've found a value that shouldn't be there, like an unexpected }
    UnexpectedValue(String),
    /// If we've left the file unexpectedly.
    UnexpectedEOF(),
    /// If our Manifest is in a state we don't expect it to be in.
    UnexpectedState(String),
}

/// The model of a node result.
pub open spec fn node_result(r: Result<ManifestNode, ManifestError>) -> Result<NodeSpec, ErrSpec> {
    match r {
        Ok(n) => Ok(n@),
        Err(e) => Err(e@),
    }
}

/// Whether two nodes are the same node.
pub fn node_eq(a: &ManifestNode, b: &ManifestNode) -> (r: bool)
    ensures
        r == (a@ == b@),
{
    match (a, b) {
        (ManifestNode::Key(x), ManifestNode::Key(y)) => x.eq(y),
        (ManifestNode::Value(x), ManifestNode::Value(y)) => x.eq(y),
        (ManifestNode::ObjectStart, ManifestNode::ObjectStart) => true,
        (ManifestNode::ObjectClose, ManifestNode::ObjectClose) => true,
        (ManifestNode::ArrayStart, ManifestNode::ArrayStart) => true,
        (ManifestNode::ArrayClose, ManifestNode::ArrayClose) => true,
        (ManifestNode::EOF, ManifestNode::EOF) => true,
        _ => false,
    }
}

/// The model of a result with nothing in it.
pub open spec fn unit_result(r: Result<(), ManifestError>) -> Result<(), ErrSpec> {
    match r {
        Ok(_) => Ok(()),
        Err(e) => Err(e@),
    }
}

/// `r` is the error `e`.
pub open spec fn err_is<T>(r: Result<T, ManifestError>, e: ErrSpec) -> bool {
    match r {
        Err(x) => x@ == e,
        Ok(_) => false,
    }
}

impl View for ManifestError {
    type V = ErrSpec;

    open spec fn view(&self) -> ErrSpec {
        match self {
            ManifestError::StdErr(_) => ErrSpec::StdErr,
            ManifestError::SerdeJsonErr(_) => ErrSpec::SerdeJson,
            ManifestError::UnexpectedValue(s) => ErrSpec::UnexpectedValue(s@),
            ManifestError::UnexpectedEOF() => ErrSpec::UnexpectedEof,
            ManifestError::UnexpectedState(s) => ErrSpec::UnexpectedState(s@),
        }
    }
}

impl ManifestError {
    /// A description of the error.
    pub fn to_string(&self) -> (r: String)
        ensures
            match self@ {
                ErrSpec::UnexpectedEof => r@ == "Unexpected end of file when reading manifest."@,
                ErrSpec::UnexpectedState(s) => r@ == s,
                ErrSpec::UnexpectedValue(s) => r@ == s,
                ErrSpec::StdErr => exists|t: Seq<char>|
                    r@ == "stderr trying to write to manifest: "@ + t,
                ErrSpec::SerdeJson => exists|t: Seq<char>|
                    r@ == "serde error trying to write to manifest: "@ + t,
            },
    {
        match self {
            ManifestError::StdErr(e) => {
                let t = io_error_text(e);
                let r = String::from_str("stderr trying to write to manifest: ").concat(t.as_str());
                r
            },
            ManifestError::SerdeJsonErr(e) => {
                let t = json_error_text(e);
                let r = String::from_str("serde error trying to write to manifest: ").concat(
                    t.as_str(),
                );
                r
            },
            ManifestError::UnexpectedEOF() => String::from_str(
                "Unexpected end of file when reading manifest.",
            ),
            ManifestError::UnexpectedState(s) => s.clone(),
            ManifestError::UnexpectedValue(s) => s.clone(),
        }
    }
}

/// Where the bytes that the reader consumes are written.
pub enum WriteTo {
    /// The output file, at its cursor.
    OutFile,
    /// An in-memory buffer.
    Buffer(Vec<u8>),
    /// Nowhere.
    Discard,
    /// A writer of the caller's.
    CustomWriter(Vec<u8>),
}

impl View for WriteTo {
    type V = SinkSpec;

    open spec fn view(&self) -> SinkSpec {
        match self {
            WriteTo::OutFile => SinkSpec::OutFile,
            WriteTo::Buffer(b) => SinkSpec::Buffer(b@),
            WriteTo::Discard => SinkSpec::Discard,
            WriteTo::CustomWriter(b) => SinkSpec::Custom(b@),
        }
    }
}

/// The types of nodes we support reading.
#[derive(PartialEq, Eq, Debug)]
pub enum ManifestNode {
    /// A key, formatted as "key":
    Key(String),
    /// A value: anything that isn't an array or object start (true, false, "string", 12, ...).
    Value(String),
    /// Start of an object `{`
    ObjectStart,
    /// Close of an object `}`
    ObjectClose,
    /// Start of an array `[`
    ArrayStart,
    /// End of an array `]`
    ArrayClose,
    EOF,
}

impl View for ManifestNode {
    type V = NodeSpec;

    open spec fn view(&self) -> NodeSpec {
        match self {
            ManifestNode::Key(s) => NodeSpec::Key(s@),
            ManifestNode::Value(s) => NodeSpec::Value(s@),
            ManifestNode::ObjectStart => NodeSpec::ObjectStart,
            ManifestNode::ObjectClose => NodeSpec::ObjectClose,
            ManifestNode::ArrayStart => NodeSpec::ArrayStart,
            ManifestNode::ArrayClose => NodeSpec::ArrayClose,
            ManifestNode::EOF => NodeSpec::Eof,
        }
    }
}

/// An array item as read: a scalar's text, or the bytes of an object or array.
#[derive(Debug)]
pub enum ArrayItem {
    Scalar(String),
    Container(Vec<u8>),
}

impl View for ArrayItem {
    type V = ItemSpec;

    open spec fn view(&self) -> ItemSpec {
        match self {
            ArrayItem::Scalar(s) => ItemSpec::Scalar(s@),
            ArrayItem::Container(b) => ItemSpec::Container(b@),
        }
    }
}

/// The model of what reading an array item gave.
pub open spec fn item_result(o: Option<Result<ArrayItem, ManifestError>>) -> Option<Result<ItemSpec, ErrSpec>> {
    match o {
        None => None,
        Some(Ok(i)) => Some(Ok(i@)),
        Some(Err(e)) => Some(Err(e@)),
    }
}

/// Whether the next array item, when it is a scalar, is text that serde_json accepts (the
/// item is parsed with `serde_json::from_str`, which must not fail on it).
pub open spec fn next_scalar_parses(m: MachineSpec) -> bool {
    m.read_item().1 matches Some(Ok(ItemSpec::Scalar(t))) ==> json_bytes_accepted(unlatin1(t))
}

/// What reading an array item as a JSON value gives: `None` once the array closes, an error,
/// or the value serde_json reads from the item's bytes (a scalar's bytes are those its text
/// was read from, so that a string is read as UTF-8).
pub open spec fn item_value(o: Option<Result<ItemSpec, ErrSpec>>) -> Option<Result<serde_json::Value, ErrSpec>> {
    match o {
        None => None,
        Some(Err(e)) => Some(Err(e)),
        Some(Ok(ItemSpec::Scalar(t))) => Some(Ok(json_value_of_bytes(unlatin1(t)))),
        Some(Ok(ItemSpec::Container(b))) => if json_bytes_accepted(b) {
            Some(Ok(json_value_of_bytes(b)))
        } else {
            Some(Err(ErrSpec::SerdeJson))
        },
    }
}

/// The model of an array item read as a JSON value.
pub open spec fn value_result(o: Option<Result<serde_json::Value, ManifestError>>) -> Option<Result<serde_json::Value, ErrSpec>> {
    match o {
        None => None,
        Some(Ok(v)) => Some(Ok(v)),
        Some(Err(e)) => Some(Err(e@)),
    }
}

/// A position to move the output file's cursor to.
#[derive(Clone, Copy, Debug, PartialEq, Eq)]
pub enum SeekFrom {
    /// So many bytes from the start.
    Start(u64),
    /// So many bytes from the end.
    End(i64),
    /// So many bytes from the cursor.
    Current(i64),
}

/// Reads through a manifest node by node, passing every byte it reads on to a writer, so that
/// values can be replaced or inserted on the way without parsing the whole file.
/// It is not a linter: it assumes the JSON is mostly well formed.
pub struct ManifestWriter {
    read_input: Vec<u8>,
    read_pos: usize,
    writer: Vec<u8>,
    write_pos: usize,
    /// Where should we be writing?
    pub active_writer: WriteTo,
    /// Where we currently are in the JSON (one entry per open object or array).
    curr_path: Vec<String>,
    /// A stack FSM for reading through JSON.
    parse_state: Vec<ManifestParseState>,
}

impl View for ManifestWriter {
    type V = MachineSpec;

    closed spec fn view(&self) -> MachineSpec {
        MachineSpec {
            input: self.read_input@,
            pos: self.read_pos as int,
            depth: self.curr_path.len() as int,
            stack: self.parse_state@,
            out: self.writer@,
            wpos: self.write_pos as int,
            sink: self.active_writer@,
        }
    }
}

impl ManifestWriter {
    /// A reader over the bytes of a manifest, writing to an empty output file.
    pub fn from_bytes(input: Vec<u8>) -> (r: Self)
        ensures
            r@ == MachineSpec::initial(input@),
            r@.wf(),
    {
        let r = ManifestWriter {
            read_input: input,
            read_pos: 0,
            writer: Vec::new(),
            write_pos: 0,
            active_writer: WriteTo::OutFile,
            curr_path: Vec::new(),
            parse_state: vec![ManifestParseState::Uninitialized],
        };
        proof {
            assert(r@.stack =~= seq![ManifestParseState::Uninitialized]);
            assert(r@.out =~= Seq::<u8>::empty());
            assert(containers(r@.stack.drop_last()) == 0);
        }
        r
    }

    /// The bytes of the output file so far.
    pub fn output(&self) -> (r: &Vec<u8>)
        ensures
            r@ == self@.out,
    {
        &self.writer
    }

    /// The bytes of the output file, consuming the reader.
    pub fn into_output(self) -> (r: Vec<u8>)
        ensures
            r@ == self@.out,
    {
        self.writer
    }

    /// Writes one byte to the output file at its cursor.
    fn outfile_byte(&mut self, b: u8)
        requires
            old(self)@.wpos >= 0,
        ensures
            final(self)@ == old(self)@.emit_outfile(seq![b]),
    {
        let ghost old_out = self.writer@;
        if self.write_pos < self.writer.len() {
            self.writer.set(self.write_pos, b);
        } else {
            while self.writer.len() < self.write_pos
                invariant
                    self.write_pos == old(self).write_pos,
                    self.read_input == old(self).read_input,
                    self.read_pos == old(self).read_pos,
                    self.active_writer == old(self).active_writer,
                    self.curr_path == old(self).curr_path,
                    self.parse_state == old(self).parse_state,
                    old_out.len() <= self.writer@.len() <= self.write_pos,
                    self.writer@.take(old_out.len() as int) == old_out,
                    forall|i: int| old_out.len() <= i < self.writer@.len() ==> self.writer@[i] == 0,
                decreases self.write_pos - self.writer@.len(),
            {
                self.writer.push(0);
            }
            let ghost before_push = self.writer@;
            self.writer.push(b);
            proof {
                let expect = overwrite(old_out, old(self)@.wpos, seq![b]);
                assert forall|i: int| 0 <= i < expect.len() implies self.writer@[i] == expect[i] by {
                    if i < old_out.len() {
                        assert(before_push.take(old_out.len() as int)[i] == old_out[i]);
                        assert(self.writer@[i] == before_push[i]);
                    } else if i < before_push.len() {
                        assert(self.writer@[i] == before_push[i]);
                    }
                }
                assert(self.writer@ =~= expect);
            }
        }
        let l = self.writer.len();
        assert(self.write_pos < l);
        self.write_pos = self.write_pos + 1;
        proof {
            let expect = overwrite(old_out, old(self)@.wpos, seq![b]);
            assert(self.writer@ =~= expect);
        }
    }


    /// Based on the active writer, write a buffer to it.
    pub fn write(&mut self, buf: &[u8]) -> (r: Result<(), std::io::Error>)
        requires
            old(self)@.wpos >= 0,
        ensures
            r is Ok,
            final(self)@ == old(self)@.emit(buf@),
    {
        let mut i: usize = 0;
        proof {
            old(self)@.lemma_emit_empty();
            assert(buf@.take(0) =~= Seq::<u8>::empty());
        }
        while i < buf.len()
            invariant
                i <= buf@.len(),
                old(self)@.wpos >= 0,
                self@ == old(self)@.emit(buf@.take(i as int)),
            decreases buf@.len() - i,
        {
            proof {
                old(self)@.lemma_emit_concat(buf@.take(i as int), seq![buf@[i as int]]);
                assert(buf@.take(i as int) + seq![buf@[i as int]] =~= buf@.take(i + 1));
                assert(self@.wpos >= 0) by {
                    old(self)@.lemma_emit_wpos(buf@.take(i as int));
                }
            }
            self.write_byte(buf[i]);
            i = i + 1;
        }
        proof {
            assert(buf@.take(i as int) =~= buf@);
        }
        Ok(())
    }

    /// Ignore the active writer, just write directly to the output file.
    pub fn write_to_outfile(&mut self, buf: &[u8]) -> (r: Result<(), std::io::Error>)
        requires
            old(self)@.wpos >= 0,
        ensures
            r is Ok,
            final(self)@ == old(self)@.emit_outfile(buf@),
    {
        let ghost start = old(self)@.with_sink(SinkSpec::OutFile);
        let mut i: usize = 0;
        proof {
            assert(buf@.take(0) =~= Seq::<u8>::empty());
            assert(overwrite(old(self)@.out, old(self)@.wpos, Seq::<u8>::empty()) =~= old(self)@.out);
        }
        while i < buf.len()
            invariant
                i <= buf@.len(),
                old(self)@.wpos >= 0,
                self@ == old(self)@.emit_outfile(buf@.take(i as int)),
            decreases buf@.len() - i,
        {
            proof {
                lemma_overwrite_concat(old(self)@.out, old(self)@.wpos, buf@.take(i as int), seq![buf@[i as int]]);
                assert(buf@.take(i as int) + seq![buf@[i as int]] =~= buf@.take(i + 1));
            }
            self.outfile_byte(buf[i]);
            i = i + 1;
        }
        proof {
            assert(buf@.take(i as int) =~= buf@);
        }
        Ok(())
    }

    /// Reads the next byte and writes it to the active writer.
    fn read_byte(&mut self) -> (r: Result<u8, ManifestError>)
        requires
            old(self)@.wf(),
        ensures
            final(self)@.wf(),
            old(self)@.pos < old(self)@.input.len() ==> (r is Ok && r->Ok_0 == old(self)@.input[old(self)@.pos])
                && final(self)@ == old(self)@.advance(old(self)@.pos + 1),
            old(self)@.pos >= old(self)@.input.len() ==> err_is(r, ErrSpec::UnexpectedEof)
                && final(self)@ == old(self)@,
    {
        if self.read_pos < self.read_input.len() {
            let b = self.read_input[self.read_pos];
            proof {
                assert(old(self)@.input.subrange(old(self)@.pos, old(self)@.pos + 1) =~= seq![b]);
            }
            self.read_pos = self.read_pos + 1;
            self.write_byte(b);
            Ok(b)
        } else {
            Err(ManifestError::UnexpectedEOF())
        }
    }

    /// Reads the next character and writes it to the active writer.
    pub fn next(&mut self) -> (r: Result<char, ManifestError>)
        requires
            old(self)@.wf(),
        ensures
            final(self)@.wf(),
            old(self)@.pos < old(self)@.input.len() ==> (r is Ok && r->Ok_0 == byte_char(old(self)@.input[old(self)@.pos]))
                && final(self)@ == old(self)@.advance(old(self)@.pos + 1),
            old(self)@.pos >= old(self)@.input.len() ==> err_is(r, ErrSpec::UnexpectedEof)
                && final(self)@ == old(self)@,
    {
        let r = self.read_byte();
        match r {
            Ok(b) => {
                let c = byte_to_char(b);
                Ok(c)
            },
            Err(e) => Err(e),
        }
    }

    /// The next character, without reading it.
    pub fn peek(&self) -> (r: Result<char, ManifestError>)
        requires
            self@.wf(),
        ensures
            self@.pos < self@.input.len() ==> (r is Ok && r->Ok_0 == byte_char(self@.input[self@.pos])),
            self@.pos >= self@.input.len() ==> err_is(r, ErrSpec::UnexpectedEof),
    {
        match self.peek_byte() {
            Ok(b) => Ok(byte_to_char(b)),
            Err(e) => Err(e),
        }
    }

    fn peek_byte(&self) -> (r: Result<u8, ManifestError>)
        requires
            self@.wf(),
        ensures
            self@.pos < self@.input.len() ==> (r is Ok && r->Ok_0 == self@.input[self@.pos]),
            self@.pos >= self@.input.len() ==> err_is(r, ErrSpec::UnexpectedEof),
    {
        if self.read_pos < self.read_input.len() {
            Ok(self.read_input[self.read_pos])
        } else {
            Err(ManifestError::UnexpectedEOF())
        }
    }


    fn start_object(&mut self) -> (r: ManifestNode)
        requires
            old(self)@.wf(),
            old(self)@.stack[0] == ManifestParseState::Empty,
        ensures
            final(self)@.wf(),
            r@ == NodeSpec::ObjectStart,
            final(self)@ == old(self)@.open(ManifestParseState::ObjectParse),
    {
        if self.curr_path.len() == 0 {
            self.curr_path.push(String::from_str("/"));
        } else {
            self.curr_path.push(String::new());
        }
        self.parse_state.push(ManifestParseState::ObjectParse);
        proof {
            old(self)@.lemma_wf_open(ManifestParseState::ObjectParse);
        }
        ManifestNode::ObjectStart
    }

    fn end_object(&mut self) -> (r: ManifestNode)
        requires
            old(self)@.wf(),
            old(self)@.stack.len() >= 2,
            old(self)@.top() == ManifestParseState::ObjectParse,
        ensures
            final(self)@.wf(),
            r@ == NodeSpec::ObjectClose,
            final(self)@ == old(self)@.close(),
    {
        proof {
            old(self)@.lemma_wf_top();
            old(self)@.lemma_wf_close();
        }
        self.curr_path.pop();
        self.parse_state.pop();
        proof {
            assert(self@.stack =~= old(self)@.stack.drop_last());
        }
        ManifestNode::ObjectClose
    }

    fn start_array(&mut self) -> (r: ManifestNode)
        requires
            old(self)@.wf(),
            old(self)@.stack[0] == ManifestParseState::Empty,
        ensures
            final(self)@.wf(),
            r@ == NodeSpec::ArrayStart,
            final(self)@ == old(self)@.open(ManifestParseState::ArrayParse),
    {
        self.curr_path.push(String::from_str("$ARRAY$"));
        self.parse_state.push(ManifestParseState::ArrayParse);
        proof {
            old(self)@.lemma_wf_open(ManifestParseState::ArrayParse);
        }
        ManifestNode::ArrayStart
    }

    fn end_array(&mut self) -> (r: ManifestNode)
        requires
            old(self)@.wf(),
            old(self)@.stack.len() >= 2,
            old(self)@.top() == ManifestParseState::ArrayParse,
        ensures
            final(self)@.wf(),
            r@ == NodeSpec::ArrayClose,
            final(self)@ == old(self)@.close(),
    {
        proof {
            old(self)@.lemma_wf_top();
            old(self)@.lemma_wf_close();
        }
        self.parse_state.pop();
        self.curr_path.pop();
        proof {
            assert(self@.stack =~= old(self)@.stack.drop_last());
        }
        ManifestNode::ArrayClose
    }

    /// Reads past whitespace (and commas, when `commas`) and returns the first other byte.
    fn read_skipping(&mut self, commas: bool) -> (r: Result<u8, ManifestError>)
        requires
            old(self)@.wf(),
        ensures
            final(self)@.wf(),
            ({
                let m = old(self)@;
                let j = if commas { skip_sep(m.input, m.pos) } else { skip_ws(m.input, m.pos) };
                &&& j >= m.input.len() ==> err_is(r, ErrSpec::UnexpectedEof) && final(self)@
                    == m.advance(m.input.len() as int)
                &&& j < m.input.len() ==> (r is Ok && r->Ok_0 == m.input[j]) && final(self)@
                    == m.advance(j + 1)
            }),
    {
        let ghost m = old(self)@;
        proof {
            m.lemma_advance_none();
        }
        let mut result: Result<u8, ManifestError> = Err(ManifestError::UnexpectedEOF());
        loop
            invariant_except_break
                self@.wf(),
                m.pos <= self@.pos <= m.input.len(),
                self@ == m.advance(self@.pos),
                commas ==> skip_sep(m.input, m.pos) == skip_sep(m.input, self@.pos),
                !commas ==> skip_ws(m.input, m.pos) == skip_ws(m.input, self@.pos),
            invariant
                m.wf(),
                m == old(self)@,
            ensures
                self@.wf(),
                ({
                    let j = if commas { skip_sep(m.input, m.pos) } else { skip_ws(m.input, m.pos) };
                    &&& j >= m.input.len() ==> err_is(result, ErrSpec::UnexpectedEof) && self@
                        == m.advance(m.input.len() as int)
                    &&& j < m.input.len() ==> (result is Ok && result->Ok_0 == m.input[j]) && self@
                        == m.advance(j + 1)
                }),
            decreases m.input.len() - self@.pos,
        {
            let ghost before = self@;
            let r = self.read_byte();
            match r {
                Err(e) => {
                    proof {
                        m.lemma_wf_advance(before.pos);
                        assert(before.pos == m.input.len());
                        assert(skip_sep(m.input, before.pos) == m.input.len());
                        assert(skip_ws(m.input, before.pos) == m.input.len());
                    }
                    result = Err(e);
                    break;
                },
                Ok(b) => {
                    proof {
                        m.lemma_wf_advance(before.pos);
                        m.lemma_advance_trans(before.pos, before.pos + 1);
                        assert(b == m.input[before.pos]);
                    }
                    if byte_is_ws(b) || (commas && b == 44) {
                        proof {
                            if commas {
                                assert(skip_sep(m.input, before.pos) == skip_sep(m.input, before.pos + 1));
                            } else {
                                assert(skip_ws(m.input, before.pos) == skip_ws(m.input, before.pos + 1));
                            }
                        }
                    } else {
                        proof {
                            if commas {
                                assert(skip_sep(m.input, before.pos) == before.pos);
                            } else {
                                assert(skip_ws(m.input, before.pos) == before.pos);
                            }
                        }
                        result = Ok(b);
                        break;
                    }
                },
            }
        }
        result
    }


    /// The digits of a number whose first character was read: up to the first character that
    /// is not numeric, which must be a comma, whitespace (both read) or a closing bracket (left).
    fn get_numeric(&mut self) -> (r: Result<ManifestNode, ManifestError>)
        requires
            old(self)@.wf(),
        ensures
            final(self)@.wf(),
            ({
                let m = old(self)@;
                let e = numeric_end(m.input, m.pos);
                let digits = latin1(m.input.subrange(m.pos, e));
                &&& e >= m.input.len() ==> err_is(r, ErrSpec::UnexpectedEof) && final(self)@
                    == m.advance(e)
                &&& e < m.input.len() && (m.input[e] == COMMA() || is_ws(m.input[e])) ==> (r is Ok
                    && r->Ok_0@ == NodeSpec::Value(digits)) && final(self)@ == m.advance(e + 1)
                &&& e < m.input.len() && (m.input[e] == CLOSE_BRACKET() || m.input[e]
                    == CLOSE_BRACE()) ==> (r is Ok && r->Ok_0@ == NodeSpec::Value(digits))
                    && final(self)@ == m.advance(e)
                &&& e < m.input.len() && !(m.input[e] == COMMA() || is_ws(m.input[e]) || m.input[e]
                    == CLOSE_BRACKET() || m.input[e] == CLOSE_BRACE()) ==> err_is(
                    r,
                    ErrSpec::UnexpectedValue(msg_digit(m.input[e])),
                ) && final(self)@ == m.advance(e)
            }),
    {
        let ghost m = old(self)@;
        proof {
            m.lemma_advance_none();
            assert(m.input.subrange(m.pos, m.pos) =~= Seq::<u8>::empty());
        }
        let mut number_val = String::new();
        let mut result: Result<ManifestNode, ManifestError> = Err(ManifestError::UnexpectedEOF());
        loop
            invariant_except_break
                self@.wf(),
                m.pos <= self@.pos <= m.input.len(),
                self@ == m.advance(self@.pos),
                numeric_end(m.input, m.pos) == numeric_end(m.input, self@.pos),
                number_val@ == latin1(m.input.subrange(m.pos, self@.pos)),
            invariant
                m.wf(),
                m == old(self)@,
            ensures
                self@.wf(),
                ({
                    let e = numeric_end(m.input, m.pos);
                    let digits = latin1(m.input.subrange(m.pos, e));
                    &&& e >= m.input.len() ==> err_is(result, ErrSpec::UnexpectedEof) && self@
                        == m.advance(e)
                    &&& e < m.input.len() && (m.input[e] == COMMA() || is_ws(m.input[e])) ==> (
                    result is Ok && result->Ok_0@ == NodeSpec::Value(digits)) && self@ == m.advance(
                        e + 1,
                    )
                    &&& e < m.input.len() && (m.input[e] == CLOSE_BRACKET() || m.input[e]
                        == CLOSE_BRACE()) ==> (result is Ok && result->Ok_0@ == NodeSpec::Value(
                        digits,
                    )) && self@ == m.advance(e)
                    &&& e < m.input.len() && !(m.input[e] == COMMA() || is_ws(m.input[e])
                        || m.input[e] == CLOSE_BRACKET() || m.input[e] == CLOSE_BRACE())
                        ==> err_is(result, ErrSpec::UnexpectedValue(msg_digit(m.input[e])))
                        && self@ == m.advance(e)
                }),
            decreases m.input.len() - self@.pos,
        {
            let ghost before = self@;
            proof {
                m.lemma_wf_advance(before.pos);
            }
            match self.peek_byte() {
                Err(e) => {
                    proof {
                        assert(numeric_end(m.input, before.pos) == m.input.len());
                    }
                    result = Err(e);
                    break;
                },
                Ok(b) => {
                    if byte_is_numeric(b) {
                        let _ = self.read_byte();
                        push_char(&mut number_val, byte_to_char(b));
                        proof {
                            m.lemma_advance_trans(before.pos, before.pos + 1);
                            assert(numeric_end(m.input, before.pos) == numeric_end(m.input, before.pos + 1));
                            assert(m.input.subrange(m.pos, before.pos + 1) =~= m.input.subrange(m.pos, before.pos).push(b));
                            assert(latin1(m.input.subrange(m.pos, before.pos + 1)) =~= latin1(m.input.subrange(m.pos, before.pos)).push(byte_char(b)));
                        }
                    } else {
                        proof {
                            assert(numeric_end(m.input, before.pos) == before.pos);
                        }
                        if byte_is_ws(b) || b == 44 || b == 93 || b == 125 {
                            if b != 93 && b != 125 {
                                let _ = self.read_byte();
                                proof {
                                    m.lemma_advance_trans(before.pos, before.pos + 1);
                                }
                            }
                            result = Ok(ManifestNode::Value(number_val));
                            break;
                        } else {
                            result = Err(ManifestError::UnexpectedValue(surround_char("Expected a digit, whitespace, or `,` got `", byte_to_char(b), "`")));
                            break;
                        }
                    }
                },
            }
        }
        result
    }

    /// A string whose opening quote was read, up to and including its closing quote.
    /// Once a backslash is read, every character after it is taken in (the closing quote too),
    /// so such a string runs to the end of the input.
    fn get_string(&mut self) -> (r: Result<ManifestNode, ManifestError>)
        requires
            old(self)@.wf(),
        ensures
            final(self)@.wf(),
            ({
                let m = old(self)@;
                let q = string_stop(m.input, m.pos);
                &&& q < m.input.len() && m.input[q] == QUOTE() ==> (r is Ok && r->Ok_0@
                    == NodeSpec::Value(latin1(seq![QUOTE()] + m.input.subrange(m.pos, q + 1))))
                    && final(self)@ == m.advance(q + 1)
                &&& !(q < m.input.len() && m.input[q] == QUOTE()) ==> err_is(
                    r,
                    ErrSpec::UnexpectedEof,
                ) && final(self)@ == m.advance(m.input.len() as int)
            }),
    {
        let ghost m = old(self)@;
        proof {
            m.lemma_advance_none();
        }
        let mut string = String::from_str("\"");
        let mut backslash = false;
        proof {
            reveal_strlit("\"");
            assert(string@ =~= latin1(seq![QUOTE()] + m.input.subrange(m.pos, m.pos)));
        }
        let mut result: Result<ManifestNode, ManifestError> = Err(ManifestError::UnexpectedEOF());
        loop
            invariant_except_break
                self@.wf(),
                m.pos <= self@.pos <= m.input.len(),
                self@ == m.advance(self@.pos),
                !backslash ==> string_stop(m.input, m.pos) == string_stop(m.input, self@.pos),
                !backslash ==> string@ == latin1(seq![QUOTE()] + m.input.subrange(m.pos, self@.pos)),
                backslash ==> string_stop(m.input, m.pos) < self@.pos && m.input[string_stop(m.input, m.pos)] == BACKSLASH(),
            invariant
                m.wf(),
                m == old(self)@,
            ensures
                self@.wf(),
                ({
                    let q = string_stop(m.input, m.pos);
                    &&& q < m.input.len() && m.input[q] == QUOTE() ==> (result is Ok && result->Ok_0@
                        == NodeSpec::Value(latin1(seq![QUOTE()] + m.input.subrange(m.pos, q + 1))))
                        && self@ == m.advance(q + 1)
                    &&& !(q < m.input.len() && m.input[q] == QUOTE()) ==> err_is(
                        result,
                        ErrSpec::UnexpectedEof,
                    ) && self@ == m.advance(m.input.len() as int)
                }),
            decreases m.input.len() - self@.pos,
        {
            let ghost before = self@;
            proof {
                m.lemma_wf_advance(before.pos);
            }
            match self.read_byte() {
                Err(e) => {
                    proof {
                        if !backslash {
                            assert(string_stop(m.input, before.pos) == m.input.len());
                        }
                    }
                    result = Err(e);
                    break;
                },
                Ok(ch) => {
                    proof {
                        m.lemma_advance_trans(before.pos, before.pos + 1);
                    }
                    if backslash {
                        push_char(&mut string, byte_to_char(ch));
                    } else {
                        proof {
                            assert(m.input.subrange(m.pos, before.pos + 1) =~= m.input.subrange(m.pos, before.pos).push(ch));
                            assert(seq![QUOTE()] + m.input.subrange(m.pos, before.pos + 1) =~= (seq![QUOTE()] + m.input.subrange(m.pos, before.pos)).push(ch));
                            assert(latin1(seq![QUOTE()] + m.input.subrange(m.pos, before.pos + 1)) =~= latin1(seq![QUOTE()] + m.input.subrange(m.pos, before.pos)).push(byte_char(ch)));
                        }
                        if ch == 92 {
                            push_char(&mut string, byte_to_char(ch));
                            backslash = true;
                            proof {
                                assert(string_stop(m.input, before.pos) == before.pos);
                            }
                        } else {
                            push_char(&mut string, byte_to_char(ch));
                        }
                        if ch == 34 {
                            proof {
                                assert(string_stop(m.input, before.pos) == before.pos);
                            }
                            result = Ok(ManifestNode::Value(string));
                            break;
                        }
                        proof {
                            if ch != 92 {
                                assert(string_stop(m.input, before.pos) == string_stop(m.input, before.pos + 1));
                            }
                        }
                    }
                },
            }
        }
        result
    }

    /// A literal whose first letter `first` was read: the bytes of `rest` must follow.
    fn expect_value(&mut self, first: u8, rest: &[u8]) -> (r: Result<ManifestNode, ManifestError>)
        requires
            old(self)@.wf(),
        ensures
            final(self)@.wf(),
            (r matches Ok(n) ==> n@ is Value),
            (match r {
                Ok(n) => (Ok::<NodeSpec, ErrSpec>(n@), final(self)@),
                Err(e) => (Err::<NodeSpec, ErrSpec>(e@), final(self)@),
            }) == old(self)@.literal_step(first, rest@),
    {
        let ghost m = old(self)@;
        proof {
            m.lemma_advance_none();
        }
        let mut k: usize = 0;
        let mut result: Result<ManifestNode, ManifestError> = Err(ManifestError::UnexpectedEOF());
        loop
            invariant_except_break
                self@.wf(),
                k <= rest@.len(),
                self@.pos == m.pos + k,
                self@.pos <= m.input.len(),
                self@ == m.advance(self@.pos),
                lit_mismatch(m.input, m.pos, rest@, 0) == lit_mismatch(m.input, m.pos, rest@, k as int),
            invariant
                m.wf(),
                m == old(self)@,
            ensures
                self@.wf(),
                (result matches Ok(n) ==> n@ is Value),
                (match result {
                    Ok(n) => (Ok::<NodeSpec, ErrSpec>(n@), self@),
                    Err(e) => (Err::<NodeSpec, ErrSpec>(e@), self@),
                }) == m.literal_step(first, rest@),
            decreases rest@.len() - k,
        {
            let ghost before = self@;
            proof {
                m.lemma_wf_advance(before.pos);
            }
            if k >= rest.len() {
                let mut full: Vec<u8> = Vec::new();
                full.push(first);
                let mut i: usize = 0;
                while i < rest.len()
                    invariant
                        i <= rest@.len(),
                        full@ == seq![first] + rest@.take(i as int),
                    decreases rest@.len() - i,
                {
                    full.push(rest[i]);
                    proof {
                        assert(rest@.take(i + 1) =~= rest@.take(i as int).push(rest@[i as int]));
                        assert(seq![first] + rest@.take(i + 1) =~= (seq![first] + rest@.take(i as int)).push(rest@[i as int]));
                    }
                    i = i + 1;
                }
                proof {
                    assert(rest@.take(i as int) =~= rest@);
                    assert(lit_mismatch(m.input, m.pos, rest@, k as int) == rest@.len());
                }
                result = Ok(ManifestNode::Value(latin1_string(full.as_slice())));
                break;
            }
            match self.read_byte() {
                Err(e) => {
                    proof {
                        assert(lit_mismatch(m.input, m.pos, rest@, k as int) == k);
                    }
                    result = Err(e);
                    break;
                },
                Ok(ch) => {
                    proof {
                        m.lemma_advance_trans(before.pos, before.pos + 1);
                    }
                    let next_ch = rest[k];
                    if next_ch != ch {
                        proof {
                            assert(lit_mismatch(m.input, m.pos, rest@, k as int) == k);
                        }
                        result = Err(ManifestError::UnexpectedValue(two_chars("Expected `", byte_to_char(next_ch), "`, got `", byte_to_char(ch), "`")));
                        break;
                    }
                    proof {
                        assert(lit_mismatch(m.input, m.pos, rest@, k as int) == lit_mismatch(m.input, m.pos, rest@, k + 1));
                    }
                    k = k + 1;
                },
            }
        }
        result
    }


    /// The characters that the input bytes `from..to` stand for.
    fn input_string(&self, from: usize, to: usize) -> (s: String)
        requires
            from <= to <= self@.input.len(),
        ensures
            s@ == latin1(self@.input.subrange(from as int, to as int)),
    {
        let mut s = String::new();
        let mut i = from;
        proof {
            assert(self@.input.subrange(from as int, from as int) =~= Seq::<u8>::empty());
        }
        while i < to
            invariant
                from <= i <= to,
                to <= self@.input.len(),
                s@ == latin1(self@.input.subrange(from as int, i as int)),
            decreases to - i,
        {
            let b = self.read_input[i];
            push_char(&mut s, byte_to_char(b));
            proof {
                assert(self@.input.subrange(from as int, i + 1) =~= self@.input.subrange(from as int, i as int).push(b));
                assert(latin1(self@.input.subrange(from as int, i + 1)) =~= latin1(self@.input.subrange(from as int, i as int)).push(byte_char(b)));
            }
            i = i + 1;
        }
        s
    }

    /// If we know we're about to read a value with a starting character, use that character
    /// to parse the value.
    fn get_value(&mut self, ch: u8) -> (r: Result<ManifestNode, ManifestError>)
        requires
            old(self)@.wf(),
            old(self)@.stack[0] == ManifestParseState::Empty,
        ensures
            final(self)@.wf(),
            (node_result(r), final(self)@) == old(self)@.value_step(ch),
    {
        let ghost m = old(self)@;
        if byte_is_numeric(ch) || ch == 45 {
            let number = self.get_numeric();
            match number {
                Ok(ManifestNode::Value(n)) => {
                    let mut full = String::new();
                    push_char(&mut full, byte_to_char(ch));
                    full.append(n.as_str());
                    proof {
                        let e = numeric_end(m.input, m.pos);
                        let sub = m.input.subrange(m.pos, e);
                        assert(latin1(seq![ch] + sub) =~= seq![byte_char(ch)] + latin1(sub));
                        assert(Seq::<char>::empty().push(byte_char(ch)) =~= seq![byte_char(ch)]);
                    }
                    return Ok(ManifestNode::Value(full));
                },
                Ok(_) => {
                    proof {
                        assert(false);
                    }
                    return Err(ManifestError::UnexpectedEOF());
                },
                Err(e) => {
                    return Err(e);
                },
            }
        }
        if ch == 34 {
            self.get_string()
        } else if ch == 123 {
            Ok(self.start_object())
        } else if ch == 91 {
            Ok(self.start_array())
        } else if ch == 116 {
            let rest: [u8; 3] = [114, 117, 101];
            proof {
                assert(rest@ =~= RUE());
            }
            self.expect_value(ch, rest.as_slice())
        } else if ch == 102 {
            let rest: [u8; 4] = [97, 108, 115, 101];
            proof {
                assert(rest@ =~= ALSE());
            }
            self.expect_value(ch, rest.as_slice())
        } else if ch == 110 {
            let rest: [u8; 3] = [117, 108, 108];
            proof {
                assert(rest@ =~= ULL());
            }
            self.expect_value(ch, rest.as_slice())
        } else {
            Err(ManifestError::UnexpectedValue(surround_char("Unexpected value character start: ", byte_to_char(ch), "")))
        }
    }

    /// When we have a `:`, find the value after it.
    fn verify_value(&mut self) -> (r: Result<ManifestNode, ManifestError>)
        requires
            old(self)@.wf(),
            old(self)@.top() == ManifestParseState::KeyParsed,
        ensures
            final(self)@.wf(),
            (node_result(r), final(self)@) == old(self)@.after_key_step(),
    {
        let ghost m = old(self)@;
        proof {
            m.lemma_wf_top();
        }
        let last = self.parse_state.len() - 1;
        if self.parse_state[last] == ManifestParseState::KeyParsed {
            self.parse_state.pop();
            proof {
                m.lemma_wf_pop_key();
                assert(self@.stack =~= m.stack.drop_last());
                assert(self@ == m.with_stack(m.stack.drop_last()));
            }
        }
        let ghost m1 = self@;
        proof {
            m1.lemma_wf_top();
        }
        match self.read_skipping(false) {
            Err(e) => Err(e),
            Ok(ch) => {
                proof {
                    lemma_scan_bounds(m1.input, m1.pos);
                    m1.lemma_wf_advance(skip_ws(m1.input, m1.pos) + 1);
                }
                self.get_value(ch)
            },
        }
    }

    /// Assuming we're inside an object and we've read a `"`, read the full key and its `:`.
    fn verify_key(&mut self) -> (r: Result<ManifestNode, ManifestError>)
        requires
            old(self)@.wf(),
            old(self)@.stack.len() >= 2,
            old(self)@.top() == ManifestParseState::ObjectParse,
        ensures
            final(self)@.wf(),
            (node_result(r), final(self)@) == old(self)@.key_step(),
    {
        let ghost m = old(self)@;
        proof {
            lemma_scan_bounds(m.input, m.pos);
        }
        let start = self.read_pos;
        match self.get_string() {
            Err(e) => Err(e),
            Ok(_) => {
                let end = self.read_pos - 1;
                let key_value = self.input_string(start, end);
                let ghost q = string_stop(m.input, m.pos);
                let ghost m2 = self@;
                proof {
                    lemma_scan_bounds(m.input, q + 1);
                }
                match self.read_skipping(false) {
                    Err(e) => {
                        proof {
                            m.lemma_advance_trans(q + 1, m.input.len() as int);
                        }
                        Err(e)
                    },
                    Ok(ch) => {
                        proof {
                            m.lemma_advance_trans(q + 1, skip_ws(m.input, q + 1) + 1);
                        }
                        if ch == 58 {
                            self.parse_state.push(ManifestParseState::KeyParsed);
                            proof {
                                let m3 = m.advance(skip_ws(m.input, q + 1) + 1);
                                m.lemma_wf_advance(skip_ws(m.input, q + 1) + 1);
                                m3.lemma_wf_push_key();
                            }
                            Ok(ManifestNode::Key(key_value))
                        } else {
                            Err(ManifestError::UnexpectedValue(surround_char("Expected : not ", byte_to_char(ch), "")))
                        }
                    },
                }
            },
        }
    }

    fn read_array(&mut self) -> (r: Result<ManifestNode, ManifestError>)
        requires
            old(self)@.wf(),
            old(self)@.top() == ManifestParseState::ArrayParse,
        ensures
            final(self)@.wf(),
            (node_result(r), final(self)@) == old(self)@.array_step(),
    {
        let ghost m = old(self)@;
        proof {
            m.lemma_wf_top();
        }
        match self.read_skipping(true) {
            Err(e) => Err(e),
            Ok(ch) => {
                proof {
                    lemma_scan_bounds(m.input, m.pos);
                    m.lemma_wf_advance(skip_sep(m.input, m.pos) + 1);
                }
                if ch == 93 {
                    Ok(self.end_array())
                } else {
                    self.get_value(ch)
                }
            },
        }
    }

    fn read_object(&mut self) -> (r: Result<ManifestNode, ManifestError>)
        requires
            old(self)@.wf(),
            old(self)@.top() == ManifestParseState::ObjectParse,
        ensures
            final(self)@.wf(),
            (node_result(r), final(self)@) == old(self)@.object_step(),
    {
        let ghost m = old(self)@;
        proof {
            m.lemma_wf_top();
        }
        match self.read_skipping(true) {
            Err(e) => Err(e),
            Ok(ch) => {
                proof {
                    lemma_scan_bounds(m.input, m.pos);
                    m.lemma_wf_advance(skip_sep(m.input, m.pos) + 1);
                }
                if ch == 34 {
                    self.verify_key()
                } else if ch == 125 {
                    Ok(self.end_object())
                } else {
                    Err(ManifestError::UnexpectedValue(surround_char("Unexpected value reading object: ", byte_to_char(ch), "")))
                }
            },
        }
    }

    /// Starts reading: the document must open with an object or an array.
    pub fn initialize(&mut self) -> (r: Result<ManifestNode, ManifestError>)
        requires
            old(self)@.wf(),
        ensures
            final(self)@.wf(),
            old(self)@.top() != ManifestParseState::Uninitialized ==> err_is(
                r,
                ErrSpec::UnexpectedState("Expected an uninitialized manifest to initialize."@),
            ) && final(self)@ == old(self)@,
            old(self)@.top() == ManifestParseState::Uninitialized ==> (node_result(r), final(self)@)
                == old(self)@.init_step(),
    {
        let ghost m = old(self)@;
        let last = self.parse_state.len() - 1;
        if self.parse_state[last] != ManifestParseState::Uninitialized {
            return Err(ManifestError::UnexpectedState(String::from_str("Expected an uninitialized manifest to initialize.")));
        }
        proof {
            m.lemma_wf_top();
        }
        self.parse_state = vec![ManifestParseState::Empty];
        let ghost m1 = self@;
        proof {
            assert(m1.stack =~= seq![ManifestParseState::Empty]);
            assert(m1 == m.with_stack(seq![ManifestParseState::Empty]));
            assert(m.stack.len() == 1);
            assert(m.stack.drop_last().len() == 0);
            assert(containers(m.stack) == containers(m.stack.drop_last()));
            assert(containers(m1.stack.drop_last()) == 0);
            assert(m1.wf());
        }
        match self.read_skipping(false) {
            Err(e) => Err(e),
            Ok(ch) => {
                proof {
                    lemma_scan_bounds(m1.input, m1.pos);
                    m1.lemma_wf_advance(skip_ws(m1.input, m1.pos) + 1);
                }
                if ch == 123 {
                    Ok(self.start_object())
                } else if ch == 91 {
                    Ok(self.start_array())
                } else {
                    Err(ManifestError::UnexpectedValue(surround_char("Expected [ or {, found ", byte_to_char(ch), "")))
                }
            },
        }
    }

    /// Reads one node: whatever comes next at the current place in the JSON.
    pub fn parse_node(&mut self) -> (r: Result<ManifestNode, ManifestError>)
        requires
            old(self)@.wf(),
        ensures
            final(self)@.wf(),
            (node_result(r), final(self)@) == old(self)@.parse_step(),
    {
        let last = self.parse_state.len() - 1;
        let state = self.parse_state[last];
        match state {
            ManifestParseState::Uninitialized => self.initialize(),
            ManifestParseState::Empty => Ok(ManifestNode::EOF),
            ManifestParseState::ObjectParse => self.read_object(),
            ManifestParseState::ArrayParse => self.read_array(),
            ManifestParseState::KeyParsed => self.verify_value(),
        }
    }


    /// Reads nodes until one of type `node_type` is read at the depth `depth_offset` away from
    /// the current one (the end of the document is reported as an unexpected end).
    fn read_until_node(&mut self, node_type: ManifestNode, depth_offset: isize) -> (r: Result<ManifestNode, ManifestError>)
        requires
            old(self)@.wf(),
            0 <= old(self)@.depth + depth_offset <= usize::MAX,
        ensures
            final(self)@.wf(),
            (node_result(r), final(self)@) == old(self)@.run_until(node_type@, old(self)@.depth + depth_offset),
    {
        let ghost m = old(self)@;
        let ghost target = old(self)@.depth + depth_offset;
        let t: i128 = self.curr_path.len() as i128 + depth_offset as i128;
        let curr_depth: usize = t as usize;
        let mut result: Result<ManifestNode, ManifestError> = Err(ManifestError::UnexpectedEOF());
        loop
            invariant_except_break
                self@.wf(),
                self@.input == m.input,
                m.run_until(node_type@, target) == self@.run_until(node_type@, target),
            invariant
                curr_depth == target,
            ensures
                self@.wf(),
                (node_result(result), self@) == m.run_until(node_type@, target),
            decreases self@.input.len() - self@.pos,
        {
            let ghost before = self@;
            proof {
                before.lemma_step_progress();
            }
            match self.parse_node() {
                Err(e) => {
                    result = Err(e);
                    break;
                },
                Ok(node) => {
                    if node_eq(&node_type, &node) && curr_depth == self.curr_path.len() {
                        result = Ok(node);
                        break;
                    }
                    if let ManifestNode::EOF = node {
                        result = Err(ManifestError::UnexpectedEOF());
                        break;
                    }
                },
            }
        }
        result
    }

    /// [`Self::read_until_node`] with nothing written.
    fn skip_node(&mut self, node_type: ManifestNode, depth_offset: isize) -> (r: Result<ManifestNode, ManifestError>)
        requires
            old(self)@.wf(),
            0 <= old(self)@.depth + depth_offset <= usize::MAX,
        ensures
            final(self)@.wf(),
            ({
                let (res, m2) = old(self)@.with_sink(SinkSpec::Discard).run_until(node_type@, old(self)@.depth + depth_offset);
                node_result(r) == res && final(self)@ == m2.with_sink(old(self)@.sink)
            }),
    {
        let mut prev_writer = WriteTo::Discard;
        std::mem::swap(&mut prev_writer, &mut self.active_writer);
        let out = self.read_until_node(node_type, depth_offset);
        self.active_writer = prev_writer;
        out
    }

    /// Moves the output file's cursor.
    pub fn write_search_seek(&mut self, offset: SeekFrom) -> (r: Result<(), ManifestError>)
        requires
            old(self)@.wf(),
        ensures
            final(self)@.wf(),
            ({
                let m = old(self)@;
                let p = match offset {
                    SeekFrom::Start(i) => i as int,
                    SeekFrom::End(i) => m.out.len() + i,
                    SeekFrom::Current(i) => m.wpos + i,
                };
                &&& 0 <= p <= usize::MAX ==> r is Ok && final(self)@ == m.with_wpos(p)
                &&& !(0 <= p <= usize::MAX) ==> err_is(r, ErrSpec::StdErr) && final(self)@ == m
            }),
    {
        let base: i128 = match offset {
            SeekFrom::Start(i) => i as i128,
            SeekFrom::End(i) => self.writer.len() as i128 + i as i128,
            SeekFrom::Current(i) => self.write_pos as i128 + i as i128,
        };
        if base < 0 || base > usize::MAX as i128 {
            return Err(ManifestError::StdErr(invalid_seek_error()));
        }
        self.write_pos = base as usize;
        Ok(())
    }

    /// Fully finish reading: everything left in the input goes to the active writer.
    pub fn flush(&mut self) -> (r: Result<(), std::io::Error>)
        requires
            old(self)@.wf(),
        ensures
            r is Ok,
            final(self)@.wf(),
            final(self)@ == old(self)@.advance(old(self)@.input.len() as int),
    {
        let ghost m = old(self)@;
        let mut buf: Vec<u8> = Vec::new();
        let mut i = self.read_pos;
        proof {
            assert(m.input.subrange(m.pos, m.pos) =~= buf@);
        }
        while i < self.read_input.len()
            invariant
                self@ == m,
                m.pos <= i <= m.input.len(),
                buf@ == m.input.subrange(m.pos, i as int),
            decreases m.input.len() - i,
        {
            buf.push(self.read_input[i]);
            proof {
                assert(m.input.subrange(m.pos, i + 1) =~= m.input.subrange(m.pos, i as int).push(m.input[i as int]));
            }
            i = i + 1;
        }
        self.read_pos = self.read_input.len();
        let _ = self.write(buf.as_slice());
        proof {
            m.lemma_wf_advance(m.input.len() as int);
        }
        Ok(())
    }


    /// The value of a matched key: read with nothing written, then `value` written in its place
    /// unless `written`.
    #[verifier::spinoff_prover]
    #[verifier::rlimit(40)]
    fn replace_value(&mut self, value: &[u8], written: bool) -> (r: Result<(), ManifestError>)
        requires
            old(self)@.wf(),
        ensures
            final(self)@.wf(),
            (unit_result(r), final(self)@) == old(self)@.replace_value(value@, written),
    {
        let ghost m1 = old(self)@;
        proof {
            m1.lemma_replace_progress(value@, written);
        }
        let mut prev_writer = WriteTo::Discard;
        std::mem::swap(&mut prev_writer, &mut self.active_writer);
        let next_value = match self.parse_node() {
            Err(e) => {
                return Err(e);
            },
            Ok(v) => v,
        };
        self.active_writer = prev_writer;
        proof {
            m1.with_sink(SinkSpec::Discard).lemma_step_progress();
            self@.lemma_wf_top();
        }
        let is_value = match &next_value {
            ManifestNode::Value(_) => true,
            _ => false,
        };
        let comma_taken = is_value && self.read_pos >= 1 && self.read_input[self.read_pos - 1] == 44;
        if let ManifestNode::ObjectStart = next_value {
            match self.skip_node(ManifestNode::ObjectClose, -1) {
                Err(e) => {
                    return Err(e);
                },
                Ok(_) => {},
            }
        } else if let ManifestNode::ArrayStart = next_value {
            match self.skip_node(ManifestNode::ArrayClose, -1) {
                Err(e) => {
                    return Err(e);
                },
                Ok(_) => {},
            }
        }
        if !written {
            proof {
                self@.lemma_emit_wpos(value@);
            }
            let _ = self.write(value);
        }
        if comma_taken {
            let comma: [u8; 1] = [44];
            proof {
                assert(comma@ =~= seq![COMMA()]);
                self@.lemma_emit_wpos(seq![COMMA()]);
            }
            let _ = self.write(comma.as_slice());
        }
        Ok(())
    }

    /// Back over the closing brace just read, then `"key": `, the value and `\n}`.
    fn insert_tail(&mut self, key: &String, value: &[u8], members: bool) -> (r: Result<(), ManifestError>)
        requires
            old(self)@.wf(),
        ensures
            final(self)@.wf(),
            (unit_result(r), final(self)@) == old(self)@.insert_tail(key@, value@, members),
    {
        match self.write_search_seek(SeekFrom::Current(-1)) {
            Err(e) => {
                return Err(e);
            },
            Ok(_) => {},
        }
        let mut key_bytes: Vec<u8> = Vec::new();
        if members {
            key_bytes.push(44);
        }
        let ghost lead = key_bytes@;
        key_bytes.push(34);
        key_bytes.extend_from_slice(key.as_str().as_bytes());
        key_bytes.push(34);
        key_bytes.push(58);
        key_bytes.push(32);
        proof {
            assert(lead =~= (if members { seq![COMMA()] } else { Seq::<u8>::empty() }));
            assert(key_bytes@ =~= lead + seq![QUOTE()] + encode_utf8(key@) + seq![QUOTE(), COLON(), 32u8]);
        }
        let _ = self.write_to_outfile(key_bytes.as_slice());
        let _ = self.write(value);
        let tail: [u8; 2] = [10, 125];
        proof {
            assert(tail@ =~= seq![10u8, CLOSE_BRACE()]);
        }
        let _ = self.write_to_outfile(tail.as_slice());
        Ok(())
    }

    /// The bytes in the active writer when it is a buffer (nothing otherwise).
    fn buffer_contents(&self) -> (r: Vec<u8>)
        ensures
            r@ == buffer_of(self@.sink),
    {
        match &self.active_writer {
            WriteTo::Buffer(b) => b.clone(),
            _ => Vec::new(),
        }
    }

    /// An object or array item whose opening bracket `open` was read into the buffer: what came
    /// before the bracket goes straight to the output file, then the item is read whole into a
    /// fresh buffer.
    fn read_container(&mut self, open: u8, close: ManifestNode) -> (r: Result<ManifestNode, ManifestError>)
        requires
            old(self)@.wf(),
            old(self)@.depth >= 1,
        ensures
            final(self)@.wf(),
            (node_result(r), final(self)@) == old(self)@.read_container(open, close@),
    {
        let mut flush_buf = self.buffer_contents();
        let ghost b = flush_buf@;
        if flush_buf.len() > 0 {
            flush_buf.pop();
        }
        proof {
            if b.len() > 0 {
                assert(flush_buf@ =~= b.drop_last());
            }
        }
        let _ = self.write_to_outfile(flush_buf.as_slice());
        let mut fresh: Vec<u8> = Vec::new();
        fresh.push(open);
        proof {
            assert(fresh@ =~= seq![open]);
        }
        self.active_writer = WriteTo::Buffer(fresh);
        self.read_until_node(close, -1)
    }

    /// Assuming we're inside an array, read the next item into a buffer.
    /// Returns the bytes read for the item (which were not written to the active writer: write
    /// them back yourself) and the item: its text for a scalar, its bytes for an object or an
    /// array; [`None`] once the array closes. The writer that was active before the call is
    /// active again afterwards, on every outcome.
    pub fn read_array_item_text(&mut self) -> (r: (Vec<u8>, Option<Result<ArrayItem, ManifestError>>))
        requires
            old(self)@.wf(),
        ensures
            final(self)@.wf(),
            (r.0@, item_result(r.1), final(self)@) == old(self)@.read_item(),
    {
        let ghost m = old(self)@;
        let last = self.parse_state.len() - 1;
        if self.parse_state[last] != ManifestParseState::ArrayParse {
            return (Vec::new(), Some(Err(ManifestError::UnexpectedState(String::from_str("Could not parse array item, Manifest is not in an array.")))));
        }
        proof {
            m.lemma_wf_top();
        }
        let mut buf = WriteTo::Buffer(Vec::new());
        std::mem::swap(&mut buf, &mut self.active_writer);
        let ghost m0 = self@;
        proof {
            assert(m0 == m.with_sink(SinkSpec::Buffer(Seq::empty())));
            m0.lemma_step_progress();
        }
        let node = match self.parse_node() {
            Err(e) => {
                let b = self.buffer_contents();
                std::mem::swap(&mut self.active_writer, &mut buf);
                return (b, Some(Err(e)));
            },
            Ok(n) => n,
        };
        proof {
            self@.lemma_wf_top();
        }
        let out: Option<Result<ArrayItem, ManifestError>> = match node {
            ManifestNode::EOF => Some(Err(ManifestError::UnexpectedEOF())),
            ManifestNode::ArrayClose => {
                let bytes = self.buffer_contents();
                proof {
                    self@.lemma_emit_wpos(bytes@);
                }
                let _ = self.write(bytes.as_slice());
                None
            },
            ManifestNode::Value(v) => Some(Ok(ArrayItem::Scalar(v))),
            ManifestNode::Key(k) => {
                let msg = String::from_str("Found a key ").concat(k.as_str()).concat(" inside an array.");
                Some(Err(ManifestError::UnexpectedValue(msg)))
            },
            ManifestNode::ObjectClose => Some(Err(ManifestError::UnexpectedValue(String::from_str("Found a closing object } inside an array.")))),
            ManifestNode::ObjectStart => {
                match self.read_container(123, ManifestNode::ObjectClose) {
                    Err(e) => Some(Err(e)),
                    Ok(_) => Some(Ok(ArrayItem::Container(self.buffer_contents()))),
                }
            },
            ManifestNode::ArrayStart => {
                match self.read_container(91, ManifestNode::ArrayClose) {
                    Err(e) => {
                        let b = self.buffer_contents();
                        std::mem::swap(&mut self.active_writer, &mut buf);
                        return (b, Some(Err(e)));
                    },
                    Ok(_) => Some(Ok(ArrayItem::Container(self.buffer_contents()))),
                }
            },
        };
        std::mem::swap(&mut self.active_writer, &mut buf);
        let bytes = match buf {
            WriteTo::Buffer(b) => b,
            _ => Vec::new(),
        };
        (bytes, out)
    }

    /// A reader in the same state as this one.
    fn copy(&self) -> (r: Self)
        ensures
            r@ == self@,
    {
        let mut path: Vec<String> = Vec::new();
        let mut i: usize = 0;
        while i < self.curr_path.len()
            invariant
                i <= self.curr_path@.len(),
                path@.len() == i,
            decreases self.curr_path@.len() - i,
        {
            path.push(String::new());
            i = i + 1;
        }
        let mut states: Vec<ManifestParseState> = Vec::new();
        let mut j: usize = 0;
        while j < self.parse_state.len()
            invariant
                j <= self.parse_state@.len(),
                states@ == self.parse_state@.take(j as int),
            decreases self.parse_state@.len() - j,
        {
            states.push(self.parse_state[j]);
            proof {
                assert(self.parse_state@.take(j + 1) =~= self.parse_state@.take(j as int).push(self.parse_state@[j as int]));
            }
            j = j + 1;
        }
        proof {
            assert(self.parse_state@.take(j as int) =~= self.parse_state@);
        }
        let active = match &self.active_writer {
            WriteTo::OutFile => WriteTo::OutFile,
            WriteTo::Buffer(b) => WriteTo::Buffer(b.clone()),
            WriteTo::Discard => WriteTo::Discard,
            WriteTo::CustomWriter(b) => WriteTo::CustomWriter(b.clone()),
        };
        ManifestWriter {
            read_input: self.read_input.clone(),
            read_pos: self.read_pos,
            writer: self.writer.clone(),
            write_pos: self.write_pos,
            active_writer: active,
            curr_path: path,
            parse_state: states,
        }
    }

    /// Assuming we're inside an array, get the next item of that array as a JSON value.
    /// Returns the bytes read for the item (which were not written to the active writer: write
    /// them back yourself) and the item; [`None`] once the array closes.
    /// An object or array item that serde_json rejects is a `SerdeJsonErr`; a scalar item must
    /// be one that serde_json accepts. Each item is read by serde_json from its bytes.
    pub fn read_array_item(&mut self) -> (r: (Vec<u8>, Option<Result<serde_json::Value, ManifestError>>))
        requires
            old(self)@.wf(),
            next_scalar_parses(old(self)@),
        ensures
            final(self)@.wf(),
            ({
                let (b, o, m2) = old(self)@.read_item();
                &&& r.0@ == b
                &&& final(self)@ == m2
                &&& value_result(r.1) == item_value(o)
            }),
    {
        let (buf, item) = self.read_array_item_text();
        let out: Option<Result<serde_json::Value, ManifestError>> = match item {
            None => None,
            Some(Err(e)) => Some(Err(e)),
            Some(Ok(ArrayItem::Scalar(text))) => {
                let bytes = latin1_bytes(text.as_str());
                match json_value_from_bytes(bytes.as_slice()) {
                    Ok(v) => Some(Ok(v)),
                    Err(e) => {
                        proof {
                            assert(false);
                        }
                        Some(Err(ManifestError::SerdeJsonErr(e)))
                    },
                }
            },
            Some(Ok(ArrayItem::Container(bytes))) => {
                match json_value_from_bytes(bytes.as_slice()) {
                    Ok(v) => Some(Ok(v)),
                    Err(e) => Some(Err(ManifestError::SerdeJsonErr(e))),
                }
            },
        };
        (buf, out)
    }

    /// [`Self::read_array_item`] where its scalar item is checked first: [`None`], with
    /// nothing read, when the next item is a scalar that serde_json rejects.
    pub fn read_array_item_checked(&mut self) -> (r: Option<(Vec<u8>, Option<Result<serde_json::Value, ManifestError>>)>)
        requires
            old(self)@.wf(),
        ensures
            final(self)@.wf(),
            !next_scalar_parses(old(self)@) ==> r is None && final(self)@ == old(self)@,
            next_scalar_parses(old(self)@) ==> r is Some && ({
                let (b, o, m2) = old(self)@.read_item();
                &&& r->Some_0.0@ == b
                &&& final(self)@ == m2
                &&& value_result(r->Some_0.1) == item_value(o)
            }),
    {
        let mut probe = self.copy();
        let (_, item) = probe.read_array_item_text();
        match item {
            Some(Ok(ArrayItem::Scalar(text))) => {
                let bytes = latin1_bytes(text.as_str());
                match json_value_from_bytes(bytes.as_slice()) {
                    Ok(_) => {},
                    Err(_) => {
                        return None;
                    },
                }
            },
            _ => {},
        }
        Some(self.read_array_item())
    }

    /// Insert the JSON text `value` under `key`, assuming that we are presently in an object:
    /// every member named `key` has its value replaced by `value` (written once); if the object
    /// closes without such a member, `"key": value` is added before its closing brace.
    pub fn insert_bytes(&mut self, key: String, value: &[u8]) -> (r: Result<(), ManifestError>)
        requires
            old(self)@.wf(),
        ensures
            final(self)@.wf(),
            old(self)@.top() != ManifestParseState::ObjectParse ==> err_is(
                r,
                ErrSpec::UnexpectedState("Cannot insert, Manifest is not parsing an object."@),
            ) && final(self)@ == old(self)@,
            old(self)@.top() == ManifestParseState::ObjectParse ==> (unit_result(r), final(self)@)
                == old(self)@.insert_loop(key@, value@, false, false, old(self)@.depth),
    {
        let ghost m = old(self)@;
        let last = self.parse_state.len() - 1;
        if self.parse_state[last] != ManifestParseState::ObjectParse {
            return Err(ManifestError::UnexpectedState(String::from_str("Cannot insert, Manifest is not parsing an object.")));
        }
        proof {
            m.lemma_wf_top();
        }
        let current_depth = self.curr_path.len();
        let mut written_values = false;
        let mut members = false;
        let mut result: Result<(), ManifestError> = Ok(());
        loop
            invariant_except_break
                self@.wf(),
                self@.input == m.input,
                m.insert_loop(key@, value@, false, false, current_depth as int) == self@.insert_loop(key@, value@, written_values, members, current_depth as int),
            invariant
                current_depth == m.depth,
                current_depth >= 1,
            ensures
                self@.wf(),
                (unit_result(result), self@) == m.insert_loop(key@, value@, false, false, current_depth as int),
            decreases self@.input.len() - self@.pos,
        {
            let ghost before = self@;
            proof {
                before.lemma_step_progress();
            }
            let node = match self.parse_node() {
                Err(e) => {
                    result = Err(e);
                    break;
                },
                Ok(n) => n,
            };
            if let ManifestNode::EOF = node {
                result = Err(ManifestError::UnexpectedEOF());
                break;
            }
            let ghost m1 = self@;
            let probe = ManifestNode::Key(key.clone());
            if node_eq(&probe, &node) {
                proof {
                    m1.lemma_replace_progress(value@, written_values);
                }
                match self.replace_value(value, written_values) {
                    Err(e) => {
                        result = Err(e);
                        break;
                    },
                    Ok(_) => {},
                }
                written_values = true;
                members = true;
            } else if let ManifestNode::ObjectClose = node {
                if self.curr_path.len() == current_depth - 1 {
                    if !written_values {
                        result = self.insert_tail(&key, value, members);
                    } else {
                        result = Ok(());
                    }
                    break;
                }
            } else if let ManifestNode::Key(_) = node {
                members = true;
            }
        }
        result
    }

    /// Insert a value under `key`, assuming that we are presently in an object (see
    /// [`Self::insert_bytes`]); the value is written as serde_json serialises it.
    pub fn insert(&mut self, key: String, value: serde_json::Value) -> (r: Result<(), ManifestError>)
        requires
            old(self)@.wf(),
        ensures
            final(self)@.wf(),
            old(self)@.top() != ManifestParseState::ObjectParse ==> err_is(
                r,
                ErrSpec::UnexpectedState("Cannot insert, Manifest is not parsing an object."@),
            ) && final(self)@ == old(self)@,
            old(self)@.top() == ManifestParseState::ObjectParse ==> (unit_result(r), final(self)@)
                == old(self)@.insert_loop(key@, json_value_text(value), false, false, old(self)@.depth),
    {
        match json_value_to_bytes(&value) {
            Ok(bytes) => self.insert_bytes(key, bytes.as_slice()),
            Err(e) => {
                proof {
                    assert(false);
                }
                Err(ManifestError::SerdeJsonErr(e))
            },
        }
    }

    /// Writes one byte to the active writer.
    fn write_byte(&mut self, b: u8)
        requires
            old(self)@.wpos >= 0,
        ensures
            final(self)@ == old(self)@.emit(seq![b]),
    {
        match &mut self.active_writer {
            WriteTo::OutFile => {
                self.outfile_byte(b);
            },
            WriteTo::Buffer(v) => {
                v.push(b);
                proof {
                    assert(v@ =~= old(self)@.sink->Buffer_0 + seq![b]);
                }
            },
            WriteTo::Discard => {},
            WriteTo::CustomWriter(v) => {
                v.push(b);
                proof {
                    assert(v@ =~= old(self)@.sink->Custom_0 + seq![b]);
                }
            },
        }
    }
}

} // verus!
