//! The mathematical model of [`super::manifest_writer::ManifestWriter`]: the input it reads,
//! where it is in that input, the stack of what it is parsing, and the sinks it writes to.
//!
//! Every step of the reader is a function of this model; the executable reader is proved to
//! take exactly these steps.
use vstd::prelude::*;
use vstd::utf8::encode_utf8;
use crate::text::{byte_char, is_numeric, is_ws, latin1};

verus! {

/// During a read of the whole file, where are we?
#[derive(PartialEq, Eq, Structural, Debug, Clone, Copy)]
pub enum ManifestParseState {
    /// Nothing read yet: the document must start with an object or an array.
    Uninitialized,
    /// The bottom of the stack once reading has started; on top of it alone, the document is over.
    Empty,
    /// Inside an object `{}`.
    ObjectParse,
    /// Inside an array `[]`.
    ArrayParse,
    /// A key was read; its value comes next.
    KeyParsed,
}

/// Where the bytes that the reader consumes go.
pub enum SinkSpec {
    /// The output file, written at its cursor.
    OutFile,
    /// An in-memory buffer, appended to.
    Buffer(Seq<u8>),
    /// Nowhere.
    Discard,
    /// A writer of the caller's, appended to.
    Custom(Seq<u8>),
}

/// A node that the reader reports.
pub enum NodeSpec {
    Key(Seq<char>),
    Value(Seq<char>),
    ObjectStart,
    ObjectClose,
    ArrayStart,
    ArrayClose,
    Eof,
}

/// An error that the reader reports.
pub enum ErrSpec {
    StdErr,
    SerdeJson,
    UnexpectedValue(Seq<char>),
    UnexpectedEof,
    UnexpectedState(Seq<char>),
}

/// An array item as read: a scalar's text, or the bytes of an object or array.
pub enum ItemSpec {
    Scalar(Seq<char>),
    Container(Seq<u8>),
}

/// The bytes held by a buffer sink (nothing for any other sink).
pub open spec fn buffer_of(sink: SinkSpec) -> Seq<u8> {
    match sink {
        SinkSpec::Buffer(b) => b,
        _ => Seq::empty(),
    }
}

/// The whole state of a manifest reader/writer.
pub struct MachineSpec {
    /// The bytes of the file being read.
    pub input: Seq<u8>,
    /// How many of them have been read.
    pub pos: int,
    /// How many objects and arrays are open.
    pub depth: int,
    /// The parse stack.
    pub stack: Seq<ManifestParseState>,
    /// The bytes of the output file.
    pub out: Seq<u8>,
    /// The output file's cursor.
    pub wpos: int,
    /// Where consumed bytes go.
    pub sink: SinkSpec,
}

pub type StepResult = (Result<NodeSpec, ErrSpec>, MachineSpec);

// Byte values of the characters the reader looks for.
pub open spec fn QUOTE() -> u8 { 34 }
pub open spec fn BACKSLASH() -> u8 { 92 }
pub open spec fn COMMA() -> u8 { 44 }
pub open spec fn COLON() -> u8 { 58 }
pub open spec fn OPEN_BRACE() -> u8 { 123 }
pub open spec fn CLOSE_BRACE() -> u8 { 125 }
pub open spec fn OPEN_BRACKET() -> u8 { 91 }
pub open spec fn CLOSE_BRACKET() -> u8 { 93 }
pub open spec fn MINUS() -> u8 { 45 }

/// `out` with `bytes` written over it from position `p` on: the file grows as needed, and a
/// gap between its old end and `p` reads as zeros (writing nothing leaves the file as it is).
pub open spec fn overwrite(out: Seq<u8>, p: int, bytes: Seq<u8>) -> Seq<u8> {
    let len = if bytes.len() > 0 && p + bytes.len() > out.len() {
        p + bytes.len()
    } else {
        out.len() as int
    };
    Seq::new(
        len as nat,
        |i: int|
            if p <= i < p + bytes.len() {
                bytes[i - p]
            } else if i < out.len() {
                out[i]
            } else {
                0u8
            },
    )
}

/// The first position at or after `p` whose byte is not whitespace (or the end).
pub open spec fn skip_ws(input: Seq<u8>, p: int) -> int
    decreases input.len() - p,
{
    if p < 0 || p >= input.len() {
        input.len() as int
    } else if is_ws(input[p]) {
        skip_ws(input, p + 1)
    } else {
        p
    }
}

/// The first position at or after `p` whose byte is neither whitespace nor a comma (or the end).
pub open spec fn skip_sep(input: Seq<u8>, p: int) -> int
    decreases input.len() - p,
{
    if p < 0 || p >= input.len() {
        input.len() as int
    } else if is_ws(input[p]) || input[p] == COMMA() {
        skip_sep(input, p + 1)
    } else {
        p
    }
}

/// The first position at or after `p` whose byte is not numeric (or the end).
pub open spec fn numeric_end(input: Seq<u8>, p: int) -> int
    decreases input.len() - p,
{
    if p < 0 || p >= input.len() {
        input.len() as int
    } else if is_numeric(input[p]) {
        numeric_end(input, p + 1)
    } else {
        p
    }
}

/// The first position at or after `p` that holds a quote or a backslash (or the end).
pub open spec fn string_stop(input: Seq<u8>, p: int) -> int
    decreases input.len() - p,
{
    if p < 0 || p >= input.len() {
        input.len() as int
    } else if input[p] == QUOTE() || input[p] == BACKSLASH() {
        p
    } else {
        string_stop(input, p + 1)
    }
}

/// The first `k` from `k0` on at which the input from `p` stops spelling `rest` (or `rest.len()`).
pub open spec fn lit_mismatch(input: Seq<u8>, p: int, rest: Seq<u8>, k: int) -> int
    decreases rest.len() - k,
{
    if k < 0 || k >= rest.len() {
        rest.len() as int
    } else if p + k >= input.len() || input[p + k] != rest[k] {
        k
    } else {
        lit_mismatch(input, p, rest, k + 1)
    }
}

// The error messages, as the reader words them.
pub open spec fn msg_open(c: u8) -> Seq<char> {
    "Expected [ or {, found "@.push(byte_char(c)) + ""@
}

pub open spec fn msg_object(c: u8) -> Seq<char> {
    "Unexpected value reading object: "@.push(byte_char(c)) + ""@
}

pub open spec fn msg_colon(c: u8) -> Seq<char> {
    "Expected : not "@.push(byte_char(c)) + ""@
}

pub open spec fn msg_digit(c: u8) -> Seq<char> {
    "Expected a digit, whitespace, or `,` got `"@.push(byte_char(c)) + "`"@
}

pub open spec fn msg_start(c: u8) -> Seq<char> {
    "Unexpected value character start: "@.push(byte_char(c)) + ""@
}

pub open spec fn msg_expected(e: u8, g: u8) -> Seq<char> {
    ("Expected `"@.push(byte_char(e)) + "`, got `"@).push(byte_char(g)) + "`"@
}

/// A parsed key at `i` sits on an object.
pub open spec fn key_on_object(s: Seq<ManifestParseState>, i: int) -> bool {
    s[i] == ManifestParseState::KeyParsed ==> s[i - 1] == ManifestParseState::ObjectParse
}

/// The number of open objects and arrays on a parse stack.
pub open spec fn containers(s: Seq<ManifestParseState>) -> int
    decreases s.len(),
{
    if s.len() == 0 {
        0
    } else {
        containers(s.drop_last()) + (if s.last() == ManifestParseState::ObjectParse
            || s.last() == ManifestParseState::ArrayParse {
            1int
        } else {
            0int
        })
    }
}

/// The bytes of the literal `true` after its first letter.
pub open spec fn RUE() -> Seq<u8> { seq![114u8, 117u8, 101u8] }
/// The bytes of the literal `false` after its first letter.
pub open spec fn ALSE() -> Seq<u8> { seq![97u8, 108u8, 115u8, 101u8] }
/// The bytes of the literal `null` after its first letter.
pub open spec fn ULL() -> Seq<u8> { seq![117u8, 108u8, 108u8] }

impl MachineSpec {
    /// The state of a reader over `input` before anything is read: writing to the output file.
    pub open spec fn initial(input: Seq<u8>) -> MachineSpec {
        MachineSpec {
            input,
            pos: 0,
            depth: 0,
            stack: seq![ManifestParseState::Uninitialized],
            out: Seq::empty(),
            wpos: 0,
            sink: SinkSpec::OutFile,
        }
    }

    /// Well-formed: the read position lies in the input, and the parse stack is an `Uninitialized`
    /// or `Empty` bottom under open objects and arrays, where a parsed key sits only on an object,
    /// and the depth counts the open objects and arrays.
    pub open spec fn wf(self) -> bool {
        &&& 0 <= self.pos <= self.input.len()
        &&& 0 <= self.wpos
        &&& self.stack.len() >= 1
        &&& (self.stack[0] == ManifestParseState::Uninitialized || self.stack[0]
            == ManifestParseState::Empty)
        &&& (self.stack[0] == ManifestParseState::Uninitialized ==> self.stack.len() == 1)
        &&& forall|i: int|
            1 <= i < self.stack.len() ==> (#[trigger] self.stack[i]
                == ManifestParseState::ObjectParse || self.stack[i]
                == ManifestParseState::ArrayParse || self.stack[i]
                == ManifestParseState::KeyParsed)
        &&& forall|i: int| 1 <= i < self.stack.len() ==> #[trigger] key_on_object(self.stack, i)
        &&& self.depth == containers(self.stack)
    }

    /// The bytes written to the current sink.
    pub open spec fn emit(self, bytes: Seq<u8>) -> MachineSpec {
        match self.sink {
            SinkSpec::OutFile => MachineSpec {
                out: overwrite(self.out, self.wpos, bytes),
                wpos: self.wpos + bytes.len(),
                ..self
            },
            SinkSpec::Buffer(b) => MachineSpec { sink: SinkSpec::Buffer(b + bytes), ..self },
            SinkSpec::Discard => self,
            SinkSpec::Custom(b) => MachineSpec { sink: SinkSpec::Custom(b + bytes), ..self },
        }
    }

    /// The bytes written straight to the output file, whatever the sink.
    pub open spec fn emit_outfile(self, bytes: Seq<u8>) -> MachineSpec {
        MachineSpec { out: overwrite(self.out, self.wpos, bytes), wpos: self.wpos + bytes.len(), ..self }
    }

    /// The input read up to position `p`, each byte read passed on to the sink.
    pub open spec fn advance(self, p: int) -> MachineSpec {
        MachineSpec { pos: p, ..self.emit(self.input.subrange(self.pos, p)) }
    }

    pub open spec fn with_sink(self, sink: SinkSpec) -> MachineSpec {
        MachineSpec { sink, ..self }
    }

    pub open spec fn with_stack(self, stack: Seq<ManifestParseState>) -> MachineSpec {
        MachineSpec { stack, ..self }
    }

    /// A new object or array opened.
    pub open spec fn open(self, s: ManifestParseState) -> MachineSpec {
        MachineSpec { stack: self.stack.push(s), depth: self.depth + 1, ..self }
    }

    /// The innermost object or array closed.
    pub open spec fn close(self) -> MachineSpec {
        MachineSpec { stack: self.stack.drop_last(), depth: self.depth - 1, ..self }
    }

    /// A parsed key pushed onto the stack.
    pub open spec fn push_key(self) -> MachineSpec {
        MachineSpec { stack: self.stack.push(ManifestParseState::KeyParsed), ..self }
    }

    /// The top of the parse stack.
    pub open spec fn top(self) -> ManifestParseState {
        self.stack.last()
    }

    /// A literal whose first letter `first` was read, expecting `rest` to follow.
    pub open spec fn literal_step(self, first: u8, rest: Seq<u8>) -> StepResult {
        let k = lit_mismatch(self.input, self.pos, rest, 0);
        if k >= rest.len() {
            (
                Ok(NodeSpec::Value(latin1(seq![first] + rest))),
                self.advance(self.pos + rest.len()),
            )
        } else if self.pos + k >= self.input.len() {
            (Err(ErrSpec::UnexpectedEof), self.advance(self.input.len() as int))
        } else {
            (
                Err(ErrSpec::UnexpectedValue(msg_expected(rest[k], self.input[self.pos + k]))),
                self.advance(self.pos + k + 1),
            )
        }
    }

    /// A value whose first byte `c` was read.
    pub open spec fn value_step(self, c: u8) -> StepResult {
        let input = self.input;
        let pos = self.pos;
        if is_numeric(c) || c == MINUS() {
            let e = numeric_end(input, pos);
            let text = latin1(seq![c] + input.subrange(pos, e));
            if e >= input.len() {
                (Err(ErrSpec::UnexpectedEof), self.advance(e))
            } else if input[e] == COMMA() || is_ws(input[e]) {
                (Ok(NodeSpec::Value(text)), self.advance(e + 1))
            } else if input[e] == CLOSE_BRACKET() || input[e] == CLOSE_BRACE() {
                (Ok(NodeSpec::Value(text)), self.advance(e))
            } else {
                (Err(ErrSpec::UnexpectedValue(msg_digit(input[e]))), self.advance(e))
            }
        } else if c == QUOTE() {
            let q = string_stop(input, pos);
            if q < input.len() && input[q] == QUOTE() {
                (
                    Ok(NodeSpec::Value(latin1(seq![QUOTE()] + input.subrange(pos, q + 1)))),
                    self.advance(q + 1),
                )
            } else {
                (Err(ErrSpec::UnexpectedEof), self.advance(input.len() as int))
            }
        } else if c == OPEN_BRACE() {
            (Ok(NodeSpec::ObjectStart), self.open(ManifestParseState::ObjectParse))
        } else if c == OPEN_BRACKET() {
            (Ok(NodeSpec::ArrayStart), self.open(ManifestParseState::ArrayParse))
        } else if c == 116 {
            self.literal_step(c, RUE())
        } else if c == 102 {
            self.literal_step(c, ALSE())
        } else if c == 110 {
            self.literal_step(c, ULL())
        } else {
            (Err(ErrSpec::UnexpectedValue(msg_start(c))), self)
        }
    }

    /// A key whose opening quote was read: the key, then `:`.
    pub open spec fn key_step(self) -> StepResult {
        let input = self.input;
        let q = string_stop(input, self.pos);
        if !(q < input.len() && input[q] == QUOTE()) {
            (Err(ErrSpec::UnexpectedEof), self.advance(input.len() as int))
        } else {
            let k = skip_ws(input, q + 1);
            if k >= input.len() {
                (Err(ErrSpec::UnexpectedEof), self.advance(input.len() as int))
            } else if input[k] == COLON() {
                (
                    Ok(NodeSpec::Key(latin1(input.subrange(self.pos, q)))),
                    self.advance(k + 1).push_key(),
                )
            } else {
                (Err(ErrSpec::UnexpectedValue(msg_colon(input[k]))), self.advance(k + 1))
            }
        }
    }

    /// Inside an object: a key, or the end of the object.
    pub open spec fn object_step(self) -> StepResult {
        let input = self.input;
        let j = skip_sep(input, self.pos);
        if j >= input.len() {
            (Err(ErrSpec::UnexpectedEof), self.advance(input.len() as int))
        } else {
            let c = input[j];
            let m = self.advance(j + 1);
            if c == QUOTE() {
                m.key_step()
            } else if c == CLOSE_BRACE() {
                (Ok(NodeSpec::ObjectClose), m.close())
            } else {
                (Err(ErrSpec::UnexpectedValue(msg_object(c))), m)
            }
        }
    }

    /// Inside an array: a value, or the end of the array.
    pub open spec fn array_step(self) -> StepResult {
        let input = self.input;
        let j = skip_sep(input, self.pos);
        if j >= input.len() {
            (Err(ErrSpec::UnexpectedEof), self.advance(input.len() as int))
        } else {
            let c = input[j];
            let m = self.advance(j + 1);
            if c == CLOSE_BRACKET() {
                (Ok(NodeSpec::ArrayClose), m.close())
            } else {
                m.value_step(c)
            }
        }
    }

    /// After a key: its value (a parsed key on top of the stack is dropped first).
    pub open spec fn after_key_step(self) -> StepResult {
        let m1 = if self.top() == ManifestParseState::KeyParsed {
            self.with_stack(self.stack.drop_last())
        } else {
            self
        };
        let input = m1.input;
        let j = skip_ws(input, m1.pos);
        if j >= input.len() {
            (Err(ErrSpec::UnexpectedEof), m1.advance(input.len() as int))
        } else {
            m1.advance(j + 1).value_step(input[j])
        }
    }

    /// The first node of the document: it must open an object or an array.
    pub open spec fn init_step(self) -> StepResult {
        let m1 = self.with_stack(seq![ManifestParseState::Empty]);
        let input = m1.input;
        let j = skip_ws(input, m1.pos);
        if j >= input.len() {
            (Err(ErrSpec::UnexpectedEof), m1.advance(input.len() as int))
        } else {
            let c = input[j];
            let m = m1.advance(j + 1);
            if c == OPEN_BRACE() {
                (Ok(NodeSpec::ObjectStart), m.open(ManifestParseState::ObjectParse))
            } else if c == OPEN_BRACKET() {
                (Ok(NodeSpec::ArrayStart), m.open(ManifestParseState::ArrayParse))
            } else {
                (Err(ErrSpec::UnexpectedValue(msg_open(c))), m)
            }
        }
    }

    /// One node read, by what is on top of the parse stack.
    pub open spec fn parse_step(self) -> StepResult {
        match self.top() {
            ManifestParseState::Uninitialized => self.init_step(),
            ManifestParseState::Empty => (Ok(NodeSpec::Eof), self),
            ManifestParseState::ObjectParse => self.object_step(),
            ManifestParseState::ArrayParse => self.array_step(),
            ManifestParseState::KeyParsed => self.after_key_step(),
        }
    }
}

/// No stack has a negative number of open objects and arrays.
pub proof fn lemma_containers_nonneg(s: Seq<ManifestParseState>)
    ensures
        containers(s) >= 0,
    decreases s.len(),
{
    if s.len() > 0 {
        lemma_containers_nonneg(s.drop_last());
    }
}

/// The scans stop at or after where they start and at or before the end; where they stop
/// inside the input, the byte there is the one they look for.
pub proof fn lemma_scan_bounds(input: Seq<u8>, p: int)
    requires
        0 <= p <= input.len(),
    ensures
        p <= skip_ws(input, p) <= input.len(),
        skip_ws(input, p) < input.len() ==> !is_ws(input[skip_ws(input, p)]),
        p <= skip_sep(input, p) <= input.len(),
        skip_sep(input, p) < input.len() ==> !is_ws(input[skip_sep(input, p)]) && input[skip_sep(input, p)] != COMMA(),
        p <= numeric_end(input, p) <= input.len(),
        numeric_end(input, p) < input.len() ==> !is_numeric(input[numeric_end(input, p)]),
        p <= string_stop(input, p) <= input.len(),
        string_stop(input, p) < input.len() ==> (input[string_stop(input, p)] == QUOTE() || input[string_stop(input, p)] == BACKSLASH()),
        forall|i: int| p <= i < skip_ws(input, p) ==> is_ws(#[trigger] input[i]),
        forall|i: int| p <= i < string_stop(input, p) ==> #[trigger] input[i] != QUOTE(),
    decreases input.len() - p,
{
    if p < input.len() {
        lemma_scan_bounds(input, p + 1);
    }
}

/// The input from `p` holds byte `i` of `rest`.
pub open spec fn lit_ok(input: Seq<u8>, p: int, rest: Seq<u8>, i: int) -> bool {
    p + i < input.len() && input[p + i] == rest[i]
}

/// Where a literal stops matching: at or after `k`, at most its length; before that point
/// every byte of the literal is in the input.
pub proof fn lemma_lit_bounds(input: Seq<u8>, p: int, rest: Seq<u8>, k: int)
    requires
        0 <= k <= rest.len(),
        0 <= p,
    ensures
        k <= lit_mismatch(input, p, rest, k) <= rest.len(),
        forall|i: int| k <= i < lit_mismatch(input, p, rest, k) ==> #[trigger] lit_ok(input, p, rest, i),
    decreases rest.len() - k,
{
    if k < rest.len() {
        lemma_lit_bounds(input, p, rest, k + 1);
        if !(p + k >= input.len() || input[p + k] != rest[k]) {
            assert(lit_mismatch(input, p, rest, k) == lit_mismatch(input, p, rest, k + 1));
            assert(lit_ok(input, p, rest, k));
        }
    }
}

/// Writing `a` and then `b` right after it is writing `a + b`.
pub proof fn lemma_overwrite_concat(out: Seq<u8>, p: int, a: Seq<u8>, b: Seq<u8>)
    requires
        0 <= p,
    ensures
        overwrite(overwrite(out, p, a), p + a.len(), b) == overwrite(out, p, a + b),
{
    let l = overwrite(overwrite(out, p, a), p + a.len(), b);
    let r = overwrite(out, p, a + b);
    assert(l.len() == r.len());
    assert forall|i: int| 0 <= i < l.len() implies l[i] == r[i] by {
        if p + a.len() <= i < p + a.len() + b.len() {
            assert((a + b)[i - p] == b[i - p - a.len()]);
        } else if p <= i < p + a.len() {
            assert((a + b)[i - p] == a[i - p]);
        }
    }
    assert(l =~= r);
}

impl MachineSpec {
    /// Emitting `a` and then `b` is emitting `a + b`.
    pub proof fn lemma_emit_concat(self, a: Seq<u8>, b: Seq<u8>)
        requires
            0 <= self.wpos,
        ensures
            self.emit(a).emit(b) == self.emit(a + b),
    {
        match self.sink {
            SinkSpec::OutFile => {
                lemma_overwrite_concat(self.out, self.wpos, a, b);
            },
            SinkSpec::Buffer(x) => {
                assert(x + a + b =~= x + (a + b));
            },
            SinkSpec::Discard => {},
            SinkSpec::Custom(x) => {
                assert(x + a + b =~= x + (a + b));
            },
        }
    }

    /// Reading up to `p1` and then up to `p2` is reading up to `p2`.
    pub proof fn lemma_advance_trans(self, p1: int, p2: int)
        requires
            0 <= self.pos <= p1 <= p2 <= self.input.len(),
            0 <= self.wpos,
        ensures
            self.advance(p1).advance(p2) == self.advance(p2),
    {
        let a = self.input.subrange(self.pos, p1);
        let b = self.input.subrange(p1, p2);
        self.lemma_emit_concat(a, b);
        assert(a + b =~= self.input.subrange(self.pos, p2));
    }

    /// Emitting keeps the output cursor non-negative and the read side unchanged.
    pub proof fn lemma_emit_wpos(self, a: Seq<u8>)
        requires
            0 <= self.wpos,
        ensures
            self.emit(a).wpos >= 0,
            self.emit(a).input == self.input,
            self.emit(a).pos == self.pos,
            self.emit(a).stack == self.stack,
            self.emit(a).depth == self.depth,
    {
    }

    /// Emitting nothing changes nothing.
    pub proof fn lemma_emit_empty(self)
        ensures
            self.emit(Seq::empty()) == self,
    {
        let e = Seq::<u8>::empty();
        match self.sink {
            SinkSpec::OutFile => {
                assert(overwrite(self.out, self.wpos, e) =~= self.out);
            },
            SinkSpec::Buffer(x) => {
                assert(x + e =~= x);
            },
            SinkSpec::Discard => {},
            SinkSpec::Custom(x) => {
                assert(x + e =~= x);
            },
        }
    }

    /// Reading on keeps a well-formed state well formed.
    pub proof fn lemma_wf_advance(self, p: int)
        requires
            self.wf(),
            self.pos <= p <= self.input.len(),
        ensures
            self.advance(p).wf(),
            self.advance(p).stack == self.stack,
            self.advance(p).depth == self.depth,
            self.advance(p).input == self.input,
            self.advance(p).pos == p,
            self.advance(p).sink is OutFile <==> self.sink is OutFile,
    {
        self.lemma_emit_wpos(self.input.subrange(self.pos, p));
        assert(self.advance(p).stack == self.stack);
    }

    /// Opening an object or an array keeps a started state well formed.
    pub proof fn lemma_wf_open(self, s: ManifestParseState)
        requires
            self.wf(),
            self.stack[0] == ManifestParseState::Empty,
            s == ManifestParseState::ObjectParse || s == ManifestParseState::ArrayParse,
        ensures
            self.open(s).wf(),
    {
        let m = self.open(s);
        assert(m.stack.drop_last() =~= self.stack);
        assert forall|i: int| 1 <= i < m.stack.len() implies #[trigger] key_on_object(m.stack, i) by {
            if i < self.stack.len() {
                assert(key_on_object(self.stack, i));
            }
        }
    }

    /// Closing the innermost object or array keeps a state well formed.
    pub proof fn lemma_wf_close(self)
        requires
            self.wf(),
            self.stack.len() >= 2,
            self.top() == ManifestParseState::ObjectParse || self.top()
                == ManifestParseState::ArrayParse,
        ensures
            self.close().wf(),
            self.close().depth == self.depth - 1,
    {
        let m = self.close();
        assert forall|i: int| 1 <= i < m.stack.len() implies #[trigger] key_on_object(m.stack, i) by {
            assert(key_on_object(self.stack, i));
        }
    }

    /// A key read inside an object keeps a state well formed.
    pub proof fn lemma_wf_push_key(self)
        requires
            self.wf(),
            self.stack.len() >= 2,
            self.top() == ManifestParseState::ObjectParse,
        ensures
            self.push_key().wf(),
            self.push_key().depth == self.depth,
    {
        let m = self.push_key();
        assert(m.stack.drop_last() =~= self.stack);
        assert forall|i: int| 1 <= i < m.stack.len() implies #[trigger] key_on_object(m.stack, i) by {
            if i < self.stack.len() {
                assert(key_on_object(self.stack, i));
            }
        }
    }

    /// Dropping a parsed key keeps a state well formed.
    pub proof fn lemma_wf_pop_key(self)
        requires
            self.wf(),
            self.stack.len() >= 2,
            self.top() == ManifestParseState::KeyParsed,
        ensures
            self.with_stack(self.stack.drop_last()).wf(),
            self.with_stack(self.stack.drop_last()).depth == self.depth,
            self.stack.drop_last().last() == ManifestParseState::ObjectParse,
    {
        let m = self.with_stack(self.stack.drop_last());
        assert(key_on_object(self.stack, self.stack.len() - 1));
        assert forall|i: int| 1 <= i < m.stack.len() implies #[trigger] key_on_object(m.stack, i) by {
            assert(key_on_object(self.stack, i));
        }
    }

    /// On a started state, the top of the stack is an object, an array or a key
    /// exactly when something is open.
    pub proof fn lemma_wf_top(self)
        requires
            self.wf(),
        ensures
            self.stack.len() >= 2 ==> self.stack[0] == ManifestParseState::Empty,
            self.stack.len() >= 2 ==> (self.top() == ManifestParseState::ObjectParse || self.top()
                == ManifestParseState::ArrayParse || self.top() == ManifestParseState::KeyParsed),
            self.stack.len() == 1 ==> self.top() == self.stack[0],
            self.top() == ManifestParseState::ObjectParse || self.top() == ManifestParseState::ArrayParse
                ==> self.depth >= 1,
    {
        if self.stack.len() >= 2 {
            assert(self.stack[self.stack.len() - 1] == self.top());
        }
        if self.top() == ManifestParseState::ObjectParse || self.top() == ManifestParseState::ArrayParse {
            lemma_containers_nonneg(self.stack.drop_last());
        }
    }

    /// What reading on to `p` keeps and changes.
    pub proof fn lemma_advance_facts(self, p: int)
        ensures
            self.advance(p).pos == p,
            self.advance(p).input == self.input,
            self.advance(p).stack == self.stack,
            self.advance(p).depth == self.depth,
    {
    }

    /// A literal step reads on and reports a value or an error.
    pub proof fn lemma_literal_progress(self, first: u8, rest: Seq<u8>)
        requires
            0 <= self.pos <= self.input.len(),
        ensures
            self.pos <= self.literal_step(first, rest).1.pos <= self.input.len(),
            self.literal_step(first, rest).1.input == self.input,
            self.literal_step(first, rest).1.stack == self.stack,
            self.literal_step(first, rest).1.depth == self.depth,
            self.literal_step(first, rest).0 matches Ok(n) ==> n is Value,
    {
        lemma_lit_bounds(self.input, self.pos, rest, 0);
        let k = lit_mismatch(self.input, self.pos, rest, 0);
        if k >= rest.len() {
            if rest.len() > 0 {
                assert(lit_ok(self.input, self.pos, rest, rest.len() - 1));
            }
            self.lemma_advance_facts(self.pos + rest.len());
        } else if self.pos + k >= self.input.len() {
            self.lemma_advance_facts(self.input.len() as int);
        } else {
            self.lemma_advance_facts(self.pos + k + 1);
        }
    }

    /// A literal step keeps a well-formed state well formed.
    pub proof fn lemma_literal_wf(self, first: u8, rest: Seq<u8>)
        requires
            self.wf(),
        ensures
            self.literal_step(first, rest).1.wf(),
    {
        lemma_lit_bounds(self.input, self.pos, rest, 0);
        self.lemma_literal_progress(first, rest);
        let k = lit_mismatch(self.input, self.pos, rest, 0);
        if k >= rest.len() {
            if rest.len() > 0 {
                assert(lit_ok(self.input, self.pos, rest, rest.len() - 1));
            }
            self.lemma_wf_advance(self.pos + rest.len());
        } else if self.pos + k >= self.input.len() {
            self.lemma_wf_advance(self.input.len() as int);
        } else {
            self.lemma_wf_advance(self.pos + k + 1);
        }
    }

    /// A value step reads on (or opens an object or array) and never reports the end.
    pub proof fn lemma_value_progress(self, c: u8)
        requires
            0 <= self.pos <= self.input.len(),
        ensures
            self.pos <= self.value_step(c).1.pos <= self.input.len(),
            self.value_step(c).1.input == self.input,
            !(self.value_step(c).0 matches Ok(n) && n is Eof),
            self.wf() && self.stack[0] == ManifestParseState::Empty ==> self.value_step(c).1.wf(),
    {
        lemma_scan_bounds(self.input, self.pos);
        if self.wf() && self.stack[0] == ManifestParseState::Empty {
            self.lemma_wf_open(ManifestParseState::ObjectParse);
            self.lemma_wf_open(ManifestParseState::ArrayParse);
            self.lemma_wf_advance(self.input.len() as int);
            let e = numeric_end(self.input, self.pos);
            self.lemma_wf_advance(e);
            if e < self.input.len() {
                self.lemma_wf_advance(e + 1);
            }
            let q = string_stop(self.input, self.pos);
            if q < self.input.len() {
                self.lemma_wf_advance(q + 1);
            }
            lemma_lit_bounds(self.input, self.pos, RUE(), 0);
            lemma_lit_bounds(self.input, self.pos, ALSE(), 0);
            lemma_lit_bounds(self.input, self.pos, ULL(), 0);
            self.lemma_literal_progress(c, RUE());
            self.lemma_literal_progress(c, ALSE());
            self.lemma_literal_progress(c, ULL());
            self.lemma_literal_wf(c, RUE());
            self.lemma_literal_wf(c, ALSE());
            self.lemma_literal_wf(c, ULL());
        }
        let input = self.input;
        if is_numeric(c) || c == MINUS() {
            let e = numeric_end(input, self.pos);
            self.lemma_advance_facts(e);
            self.lemma_advance_facts(e + 1);
        } else if c == QUOTE() {
            let q = string_stop(input, self.pos);
            self.lemma_advance_facts(q + 1);
            self.lemma_advance_facts(input.len() as int);
        } else if c == 116 {
            self.lemma_literal_progress(c, RUE());
        } else if c == 102 {
            self.lemma_literal_progress(c, ALSE());
        } else if c == 110 {
            self.lemma_literal_progress(c, ULL());
        }
    }

    /// One step of a well-formed reader keeps it well formed, never reads backwards, and
    /// reports the end of the document only on an `Empty` stack, without reading; any other
    /// node it reports was read from at least one byte of input.
    pub proof fn lemma_step_progress(self)
        requires
            self.wf(),
        ensures
            self.pos <= self.parse_step().1.pos <= self.input.len(),
            self.parse_step().1.input == self.input,
            (self.parse_step().0 matches Ok(n) && n is Eof) <==> self.top()
                == ManifestParseState::Empty,
            self.top() == ManifestParseState::Empty ==> self.parse_step().1 == self,
            (self.parse_step().0 matches Ok(n) && !(n is Eof)) ==> self.parse_step().1.pos
                > self.pos,
            self.parse_step().1.wf(),
    {
        self.lemma_wf_top();
        lemma_scan_bounds(self.input, self.pos);
        let input = self.input;
        match self.top() {
            ManifestParseState::Uninitialized => {
                let m1 = self.with_stack(seq![ManifestParseState::Empty]);
                let j = skip_ws(input, m1.pos);
                m1.lemma_advance_facts(input.len() as int);
                m1.lemma_advance_facts(j + 1);
                assert(self.stack.len() == 1);
                assert(self.stack.drop_last().len() == 0);
                assert(containers(self.stack) == containers(self.stack.drop_last()));
                assert(m1.stack.drop_last() =~= Seq::<ManifestParseState>::empty());
                assert(self.stack.drop_last() =~= Seq::<ManifestParseState>::empty());
                assert(containers(Seq::<ManifestParseState>::empty()) == 0);
                assert(containers(m1.stack) == containers(m1.stack.drop_last()));
                assert(m1.wf());
                m1.lemma_wf_advance(input.len() as int);
                if j < input.len() {
                    m1.lemma_wf_advance(j + 1);
                    m1.advance(j + 1).lemma_wf_open(ManifestParseState::ObjectParse);
                    m1.advance(j + 1).lemma_wf_open(ManifestParseState::ArrayParse);
                }
            },
            ManifestParseState::Empty => {},
            ManifestParseState::ObjectParse => {
                let j = skip_sep(input, self.pos);
                self.lemma_advance_facts(input.len() as int);
                self.lemma_wf_advance(input.len() as int);
                if j < input.len() {
                    let m = self.advance(j + 1);
                    self.lemma_advance_facts(j + 1);
                    self.lemma_wf_advance(j + 1);
                    if input[j] == QUOTE() {
                        lemma_scan_bounds(input, j + 1);
                        let q = string_stop(input, j + 1);
                        m.lemma_advance_facts(input.len() as int);
                        m.lemma_wf_advance(input.len() as int);
                        if q < input.len() && input[q] == QUOTE() {
                            lemma_scan_bounds(input, q + 1);
                            let k = skip_ws(input, q + 1);
                            m.lemma_advance_facts(k + 1);
                            if k < input.len() {
                                m.lemma_wf_advance(k + 1);
                                m.advance(k + 1).lemma_wf_push_key();
                            }
                        }
                    } else if input[j] == CLOSE_BRACE() {
                        m.lemma_wf_close();
                    }
                }
            },
            ManifestParseState::ArrayParse => {
                let j = skip_sep(input, self.pos);
                self.lemma_advance_facts(input.len() as int);
                self.lemma_wf_advance(input.len() as int);
                if j < input.len() {
                    let m = self.advance(j + 1);
                    self.lemma_advance_facts(j + 1);
                    self.lemma_wf_advance(j + 1);
                    if input[j] != CLOSE_BRACKET() {
                        m.lemma_value_progress(input[j]);
                    } else {
                        m.lemma_wf_close();
                    }
                }
            },
            ManifestParseState::KeyParsed => {
                let m1 = self.with_stack(self.stack.drop_last());
                self.lemma_wf_pop_key();
                m1.lemma_wf_top();
                let j = skip_ws(input, m1.pos);
                m1.lemma_advance_facts(input.len() as int);
                m1.lemma_wf_advance(input.len() as int);
                if j < input.len() {
                    let m = m1.advance(j + 1);
                    m1.lemma_advance_facts(j + 1);
                    m1.lemma_wf_advance(j + 1);
                    m.lemma_value_progress(input[j]);
                }
            },
        }
    }

    /// Nodes read one after another until `target` is read at `depth` open objects and arrays:
    /// the first error stops it, and so does the end of the document (reported as an
    /// unexpected end).
    pub open spec fn run_until(self, target: NodeSpec, depth: int) -> StepResult
        decreases self.input.len() - self.pos,
        when self.wf()
    {
        let (r, m2) = self.parse_step();
        match r {
            Err(e) => (Err(e), m2),
            Ok(n) => {
                if n == target && m2.depth == depth {
                    (Ok(n), m2)
                } else if n is Eof {
                    (Err(ErrSpec::UnexpectedEof), m2)
                } else {
                    proof {
                        self.lemma_step_progress();
                    }
                    m2.run_until(target, depth)
                }
            },
        }
    }

    /// Reading until a node keeps a well-formed state well formed, never reads backwards and
    /// keeps the input.
    pub proof fn lemma_run_until_progress(self, target: NodeSpec, depth: int)
        requires
            self.wf(),
        ensures
            self.run_until(target, depth).1.wf(),
            self.pos <= self.run_until(target, depth).1.pos <= self.input.len(),
            self.run_until(target, depth).1.input == self.input,
        decreases self.input.len() - self.pos,
    {
        self.lemma_step_progress();
        let (r, m2) = self.parse_step();
        match r {
            Err(e) => {},
            Ok(n) => {
                if n == target && m2.depth == depth {
                } else if n is Eof {
                } else {
                    m2.lemma_run_until_progress(target, depth);
                }
            },
        }
    }

    /// Nodes skipped, with nothing written, until `target` is read one level up; the sink is put
    /// back afterwards.
    pub open spec fn skip_until(self, target: NodeSpec) -> (Result<NodeSpec, ErrSpec>, MachineSpec) {
        let (r, m) = self.with_sink(SinkSpec::Discard).run_until(target, self.depth - 1);
        (r, m.with_sink(self.sink))
    }

    /// An object closed without the key having been found: back over the `}`, then a comma
    /// when the object has members, `"key": `, the value, and a new `}` on a line of its own.
    pub open spec fn insert_tail(self, key: Seq<char>, value: Seq<u8>, members: bool) -> (Result<(), ErrSpec>, MachineSpec) {
        if self.wpos < 1 {
            (Err(ErrSpec::StdErr), self)
        } else {
            let lead = if members { seq![COMMA()] } else { Seq::<u8>::empty() };
            let m1 = self.with_wpos(self.wpos - 1).emit_outfile(
                lead + seq![QUOTE()] + encode_utf8(key) + seq![QUOTE(), COLON(), 32u8],
            );
            (Ok(()), m1.emit(value).emit_outfile(seq![10u8, CLOSE_BRACE()]))
        }
    }

    /// The value of a matched key: read with nothing written (skipping a whole object or
    /// array), then `value` written in its place unless it was written already. Where reading a
    /// number took the comma after it, the comma is written back after the value.
    pub open spec fn replace_value(self, value: Seq<u8>, written: bool) -> (Result<(), ErrSpec>, MachineSpec) {
        let (r2, mv) = self.with_sink(SinkSpec::Discard).parse_step();
        match r2 {
            Err(e) => (Err(e), mv),
            Ok(v) => {
                let mv2 = mv.with_sink(self.sink);
                let (r3, m3) = if v is ObjectStart {
                    mv2.skip_until(NodeSpec::ObjectClose)
                } else if v is ArrayStart {
                    mv2.skip_until(NodeSpec::ArrayClose)
                } else {
                    (Ok(v), mv2)
                };
                let comma_taken = v is Value && 1 <= mv.pos <= mv.input.len() && mv.input[mv.pos - 1] == COMMA();
                match r3 {
                    Err(e) => (Err(e), m3),
                    Ok(_) => {
                        let m4 = if written { m3 } else { m3.emit(value) };
                        (Ok(()), if comma_taken { m4.emit(seq![COMMA()]) } else { m4 })
                    },
                }
            },
        }
    }

    /// Inserting `value` under `key` into the object open at depth `base`: every node is read
    /// through; the value of each member named `key` is replaced (the first time) by `value`;
    /// when the object closes with the value not yet written, the member is added before the
    /// closing brace (after a comma when a key, and so a member, was read).
    pub open spec fn insert_loop(self, key: Seq<char>, value: Seq<u8>, written: bool, members: bool, base: int) -> (Result<(), ErrSpec>, MachineSpec)
        decreases self.input.len() - self.pos,
        when self.wf()
    {
        let (r, m1) = self.parse_step();
        match r {
            Err(e) => (Err(e), m1),
            Ok(n) => {
                if n is Eof {
                    (Err(ErrSpec::UnexpectedEof), m1)
                } else if n == NodeSpec::Key(key) {
                    let (r4, m4) = m1.replace_value(value, written);
                    match r4 {
                        Err(e) => (Err(e), m4),
                        Ok(_) => {
                            proof {
                                self.lemma_step_progress();
                                m1.lemma_replace_progress(value, written);
                            }
                            m4.insert_loop(key, value, true, true, base)
                        },
                    }
                } else if n is ObjectClose && m1.depth == base - 1 {
                    if written {
                        (Ok(()), m1)
                    } else {
                        m1.insert_tail(key, value, members)
                    }
                } else {
                    proof {
                        self.lemma_step_progress();
                    }
                    m1.insert_loop(key, value, written, members || n is Key, base)
                }
            },
        }
    }

    /// Replacing a value keeps a well-formed state well formed and never reads backwards.
    pub proof fn lemma_replace_progress(self, value: Seq<u8>, written: bool)
        requires
            self.wf(),
        ensures
            self.replace_value(value, written).1.wf(),
            self.pos <= self.replace_value(value, written).1.pos <= self.input.len(),
            self.replace_value(value, written).1.input == self.input,
    {
        let d = self.with_sink(SinkSpec::Discard);
        d.lemma_step_progress();
        let (r2, mv) = d.parse_step();
        match r2 {
            Err(e) => {},
            Ok(v) => {
                let mv2 = mv.with_sink(self.sink);
                let dd = mv2.with_sink(SinkSpec::Discard);
                dd.lemma_run_until_progress(NodeSpec::ObjectClose, mv2.depth - 1);
                dd.lemma_run_until_progress(NodeSpec::ArrayClose, mv2.depth - 1);
                let (r3, m3) = if v is ObjectStart {
                    mv2.skip_until(NodeSpec::ObjectClose)
                } else if v is ArrayStart {
                    mv2.skip_until(NodeSpec::ArrayClose)
                } else {
                    (Ok(v), mv2)
                };
                m3.lemma_emit_wpos(value);
                let m4 = if written { m3 } else { m3.emit(value) };
                m4.lemma_emit_wpos(seq![COMMA()]);
            },
        }
    }

    /// An object or array item whose opening bracket `open` was read into the buffer: what came
    /// before the bracket goes straight to the output file, then the item is read whole into a
    /// fresh buffer.
    pub open spec fn read_container(self, open: u8, close: NodeSpec) -> StepResult {
        let b = buffer_of(self.sink);
        let before = if b.len() > 0 { b.drop_last() } else { b };
        let m2 = self.emit_outfile(before).with_sink(
            SinkSpec::Buffer(seq![open]),
        );
        m2.run_until(close, m2.depth - 1)
    }

    /// Reading one array item into a buffer. Returns the bytes read for the item, the item (or
    /// an error, or nothing once the array closes), and the state after, in which the sink that
    /// was active before is active again, whatever came of the read.
    pub open spec fn read_item(self) -> (Seq<u8>, Option<Result<ItemSpec, ErrSpec>>, MachineSpec) {
        if self.top() != ManifestParseState::ArrayParse {
            (
                Seq::empty(),
                Some(
                    Err(
                        ErrSpec::UnexpectedState(
                            "Could not parse array item, Manifest is not in an array."@,
                        ),
                    ),
                ),
                self,
            )
        } else {
            let prev = self.sink;
            let (r, m1) = self.with_sink(SinkSpec::Buffer(Seq::empty())).parse_step();
            let b1 = buffer_of(m1.sink);
            match r {
                Err(e) => (b1, Some(Err(e)), m1.with_sink(prev)),
                Ok(n) => match n {
                    NodeSpec::Eof => (b1, Some(Err(ErrSpec::UnexpectedEof)), m1.with_sink(prev)),
                    NodeSpec::ArrayClose => {
                        let m2 = m1.emit(b1);
                        (buffer_of(m2.sink), None, m2.with_sink(prev))
                    },
                    NodeSpec::Value(v) => (b1, Some(Ok(ItemSpec::Scalar(v))), m1.with_sink(prev)),
                    NodeSpec::Key(k) => (
                        b1,
                        Some(
                            Err(
                                ErrSpec::UnexpectedValue(
                                    "Found a key "@ + k + " inside an array."@,
                                ),
                            ),
                        ),
                        m1.with_sink(prev),
                    ),
                    NodeSpec::ObjectClose => (
                        b1,
                        Some(
                            Err(
                                ErrSpec::UnexpectedValue(
                                    "Found a closing object } inside an array."@,
                                ),
                            ),
                        ),
                        m1.with_sink(prev),
                    ),
                    NodeSpec::ObjectStart => {
                        let (r3, m3) = m1.read_container(OPEN_BRACE(), NodeSpec::ObjectClose);
                        let b3 = buffer_of(m3.sink);
                        match r3 {
                            Err(e) => (b3, Some(Err(e)), m3.with_sink(prev)),
                            Ok(_) => (b3, Some(Ok(ItemSpec::Container(b3))), m3.with_sink(prev)),
                        }
                    },
                    NodeSpec::ArrayStart => {
                        let (r3, m3) = m1.read_container(OPEN_BRACKET(), NodeSpec::ArrayClose);
                        let b3 = buffer_of(m3.sink);
                        match r3 {
                            Err(e) => (b3, Some(Err(e)), m3.with_sink(prev)),
                            Ok(_) => (b3, Some(Ok(ItemSpec::Container(b3))), m3.with_sink(prev)),
                        }
                    },
                },
            }
        }
    }

    /// Reading an array item keeps a well-formed state well formed and never reads backwards;
    /// an item (or error) other than the end of the array was read from at least one byte.
    pub proof fn lemma_read_item_progress(self)
        requires
            self.wf(),
        ensures
            self.read_item().2.wf(),
            self.pos <= self.read_item().2.pos <= self.input.len(),
            self.read_item().2.input == self.input,
            self.top() == ManifestParseState::ArrayParse && (self.read_item().1 matches Some(Ok(_)))
                ==> self.read_item().2.pos > self.pos,
    {
        if self.top() == ManifestParseState::ArrayParse {
            let m0 = self.with_sink(SinkSpec::Buffer(Seq::empty()));
            m0.lemma_step_progress();
            self.lemma_wf_top();
            let (r, m1) = m0.parse_step();
            let b = buffer_of(m1.sink);
            let before = if b.len() > 0 { b.drop_last() } else { b };
            let m2o = m1.emit_outfile(before).with_sink(SinkSpec::Buffer(seq![OPEN_BRACE()]));
            let m2a = m1.emit_outfile(before).with_sink(SinkSpec::Buffer(seq![OPEN_BRACKET()]));
            m2o.lemma_run_until_progress(NodeSpec::ObjectClose, m2o.depth - 1);
            m2a.lemma_run_until_progress(NodeSpec::ArrayClose, m2a.depth - 1);
            m1.lemma_emit_wpos(buffer_of(m1.sink));
        }
    }

    /// The output cursor moved to `p`.
    pub open spec fn with_wpos(self, p: int) -> MachineSpec {
        MachineSpec { wpos: p, ..self }
    }

    /// Reading nothing changes nothing.
    pub proof fn lemma_advance_none(self)
        requires
            0 <= self.pos <= self.input.len(),
        ensures
            self.advance(self.pos) == self,
    {
        let e = self.input.subrange(self.pos, self.pos);
        assert(e =~= Seq::<u8>::empty());
        match self.sink {
            SinkSpec::OutFile => {
                assert(overwrite(self.out, self.wpos, e) =~= self.out);
            },
            SinkSpec::Buffer(x) => {
                assert(x + e =~= x);
            },
            SinkSpec::Discard => {},
            SinkSpec::Custom(x) => {
                assert(x + e =~= x);
            },
        }
    }
}

} // verus!
