//! JSON values as the decoders read them, and the reading of a response body.

use rustc_serialize::json::Json;
use rustc_serialize::json::ParserError;
use vstd::prelude::*;

verus! {

/// A JSON value as a mathematical tree.
pub enum JsonModel {
    Null,
    Boolean(bool),
    I64(i64),
    U64(u64),
    Float,
    Text(Seq<char>),
    Array(Seq<JsonModel>),
    Object(Seq<(Seq<char>, JsonModel)>),
}

/// A JSON value. A number with a fraction or an exponent is kept as `Float`,
/// without its value: no record of this library holds one.
#[derive(Debug, PartialEq, Eq)]
pub enum JsonValue {
    Null,
    Boolean(bool),
    I64(i64),
    U64(u64),
    Float,
    Text(String),
    Array(Vec<JsonValue>),
    Object(Vec<(String, JsonValue)>),
}

/// The tree that `v` stands for.
pub open spec fn value_model(v: JsonValue) -> JsonModel
    decreases v,
{
    match v {
        JsonValue::Null => JsonModel::Null,
        JsonValue::Boolean(b) => JsonModel::Boolean(b),
        JsonValue::I64(n) => JsonModel::I64(n),
        JsonValue::U64(n) => JsonModel::U64(n),
        JsonValue::Float => JsonModel::Float,
        JsonValue::Text(s) => JsonModel::Text(s@),
        JsonValue::Array(items) => JsonModel::Array(
            Seq::new(
                items@.len(),
                |i: int|
                    if 0 <= i < items@.len() {
                        value_model(items@[i])
                    } else {
                        JsonModel::Null
                    },
            ),
        ),
        JsonValue::Object(fields) => JsonModel::Object(
            Seq::new(
                fields@.len(),
                |i: int|
                    if 0 <= i < fields@.len() {
                        (fields@[i].0@, value_model(fields@[i].1))
                    } else {
                        (Seq::empty(), JsonModel::Null)
                    },
            ),
        ),
    }
}

impl View for JsonValue {
    type V = JsonModel;

    open spec fn view(&self) -> JsonModel {
        value_model(*self)
    }
}

/// `Json` of rustc-serialize: a parsed document. Nothing is known of what is
/// inside a value but what `json_node` hands out.
#[verifier::external_type_specification]
#[verifier::external_body]
pub struct ExJson(Json);

/// `ParserError` of rustc-serialize: why a text is no document. It is
/// carried, and nothing of it is read.
#[verifier::external_type_specification]
#[verifier::external_body]
pub struct ExParserError(ParserError);

/// The tree that a value of rustc-serialize's `Json` holds. `json_node` says
/// what it is, level by level.
pub uninterp spec fn json_model(j: Json) -> JsonModel;

/// The tree that `Json::from_reader` of rustc-serialize reads out of the
/// bytes of `body`, where it reads one.
pub uninterp spec fn json_read(body: Seq<u8>) -> Option<JsonModel>;

/// One level of a parsed value: its own kind and payload, the values below it untouched.
pub enum JsonNode<'a> {
    Null,
    Boolean(bool),
    I64(i64),
    U64(u64),
    Float,
    Text(&'a String),
    Array(&'a Vec<Json>),
    Object(Vec<(&'a String, &'a Json)>),
}

/// The tree that `n` stands for.
pub open spec fn node_model(n: JsonNode) -> JsonModel {
    match n {
        JsonNode::Null => JsonModel::Null,
        JsonNode::Boolean(b) => JsonModel::Boolean(b),
        JsonNode::I64(v) => JsonModel::I64(v),
        JsonNode::U64(v) => JsonModel::U64(v),
        JsonNode::Float => JsonModel::Float,
        JsonNode::Text(s) => JsonModel::Text(s@),
        JsonNode::Array(items) => JsonModel::Array(
            Seq::new(items@.len(), |i: int| json_model(items@[i])),
        ),
        JsonNode::Object(fields) => JsonModel::Object(
            Seq::new(fields@.len(), |i: int| (fields@[i].0@, json_model(*fields@[i].1))),
        ),
    }
}

/// How deep a document may be nested to be handed to the parser.
pub const MAX_DEPTH: usize = 64;

/// How long, in bytes, a key of an object may be.
pub const MAX_KEY: usize = 1000;

/// How many digits the exponent of a number may have.
pub const MAX_EXPONENT: usize = 9;

/// How long, in bytes, a document may be.
pub const MAX_BODY: usize = 0x7fff_ffff;

/// What one pass over the bytes of a document has seen of its shape.
pub struct Scan {
    /// Whether the pass stands inside a string.
    pub in_text: bool,
    /// Whether the byte before, inside a string, was a backslash that escapes the next.
    pub escaped: bool,
    /// How many arrays and objects are open.
    pub depth: nat,
    /// The most that were open at once.
    pub deepest: nat,
    /// The length in bytes of the string that was opened last.
    pub run: nat,
    /// The length of the longest string that a colon followed.
    pub longest_key: nat,
    /// The digits seen of an exponent, while the pass stands in one.
    pub exponent: Option<nat>,
    /// The most digits seen of one exponent.
    pub longest_exponent: nat,
    /// Whether the last byte outside a string, white space apart, was a comma.
    pub after_comma: bool,
    /// Whether a brace closed an object right behind a comma.
    pub dangling: bool,
}

/// The pass before its first byte.
pub open spec fn scan_start() -> Scan {
    Scan {
        in_text: false,
        escaped: false,
        depth: 0,
        deepest: 0,
        run: 0,
        longest_key: 0,
        exponent: None,
        longest_exponent: 0,
        after_comma: false,
        dangling: false,
    }
}

/// The larger of two numbers.
pub open spec fn larger(a: nat, b: nat) -> nat {
    if a >= b {
        a
    } else {
        b
    }
}

/// Whether the byte is white space between the tokens of a document.
pub open spec fn is_space(b: u8) -> bool {
    b == 0x20 || b == 0x0a || b == 0x09 || b == 0x0d
}

/// The pass after one more byte. Inside a string only the quote that ends it
/// and the backslash count; outside, brackets and braces open and close,
/// a colon marks the string before it as a key, `e` or `E` starts an
/// exponent, which a sign may follow and which lasts while digits come, and
/// a comma is remembered until something other than white space follows.
pub open spec fn scan_step(s: Scan, b: u8) -> Scan {
    if s.in_text {
        if s.escaped {
            Scan { escaped: false, run: s.run + 1, ..s }
        } else if b == 0x5c {
            Scan { escaped: true, run: s.run + 1, ..s }
        } else if b == 0x22 {
            Scan { in_text: false, ..s }
        } else {
            Scan { run: s.run + 1, ..s }
        }
    } else if is_space(b) {
        Scan { exponent: None, ..s }
    } else if b == 0x2c {
        Scan { exponent: None, after_comma: true, ..s }
    } else if b == 0x22 {
        Scan { in_text: true, run: 0, exponent: None, after_comma: false, ..s }
    } else if b == 0x5b || b == 0x7b {
        Scan {
            depth: s.depth + 1,
            deepest: larger(s.deepest, s.depth + 1),
            exponent: None,
            after_comma: false,
            ..s
        }
    } else if b == 0x5d || b == 0x7d {
        Scan {
            depth: if s.depth > 0 {
                (s.depth - 1) as nat
            } else {
                0
            },
            exponent: None,
            after_comma: false,
            dangling: s.dangling || (b == 0x7d && s.after_comma),
            ..s
        }
    } else if b == 0x3a {
        Scan {
            longest_key: larger(s.longest_key, s.run),
            exponent: None,
            after_comma: false,
            ..s
        }
    } else if b == 0x65 || b == 0x45 {
        Scan { exponent: Some(0), after_comma: false, ..s }
    } else if 0x30 <= b <= 0x39 {
        match s.exponent {
            Some(n) => Scan {
                exponent: Some(n + 1),
                longest_exponent: larger(s.longest_exponent, n + 1),
                after_comma: false,
                ..s
            },
            None => Scan { after_comma: false, ..s },
        }
    } else if b == 0x2b || b == 0x2d {
        if s.exponent == Some(0nat) {
            Scan { after_comma: false, ..s }
        } else {
            Scan { exponent: None, after_comma: false, ..s }
        }
    } else {
        Scan { exponent: None, after_comma: false, ..s }
    }
}

/// The pass over all of `body`.
pub open spec fn scan(body: Seq<u8>) -> Scan
    decreases body.len(),
{
    if body.len() == 0 {
        scan_start()
    } else {
        scan_step(scan(body.drop_last()), body.last())
    }
}

/// Whether `body` is within the limits: not longer than `MAX_BODY`, never
/// nested deeper than `MAX_DEPTH`, no key longer than `MAX_KEY`, no exponent
/// of more than `MAX_EXPONENT` digits.
pub open spec fn within_limits(body: Seq<u8>) -> bool {
    &&& body.len() <= MAX_BODY
    &&& scan(body).deepest <= MAX_DEPTH
    &&& scan(body).longest_key <= MAX_KEY
    &&& scan(body).longest_exponent <= MAX_EXPONENT
}

/// Whether an object of `body` ends right behind a comma. No JSON document
/// has such an object.
pub open spec fn has_dangling_comma(body: Seq<u8>) -> bool {
    scan(body).dangling
}

/// Whether `body` is what the parser is trusted with: within the limits, and
/// without a dangling comma.
pub open spec fn tame(body: Seq<u8>) -> bool {
    within_limits(body) && !has_dangling_comma(body)
}

/// What a pass over a body finds of its shape.
#[derive(Debug, Copy, Clone, PartialEq, Eq, Structural)]
pub enum Shape {
    /// The body is tame.
    Tame,
    /// The body is beyond the limits.
    BeyondLimits,
    /// The body is within the limits, and an object of it ends behind a comma.
    DanglingComma,
}

/// The shape of `body`.
pub open spec fn shape_of(body: Seq<u8>) -> Shape {
    if !within_limits(body) {
        Shape::BeyondLimits
    } else if has_dangling_comma(body) {
        Shape::DanglingComma
    } else {
        Shape::Tame
    }
}

/// The pass, as it runs.
struct Scanner {
    in_text: bool,
    escaped: bool,
    depth: usize,
    deepest: usize,
    run: usize,
    longest_key: usize,
    exponent: Option<usize>,
    longest_exponent: usize,
    after_comma: bool,
    dangling: bool,
}

impl View for Scanner {
    type V = Scan;

    closed spec fn view(&self) -> Scan {
        Scan {
            in_text: self.in_text,
            escaped: self.escaped,
            depth: self.depth as nat,
            deepest: self.deepest as nat,
            run: self.run as nat,
            longest_key: self.longest_key as nat,
            exponent: match self.exponent {
                Some(n) => Some(n as nat),
                None => None,
            },
            longest_exponent: self.longest_exponent as nat,
            after_comma: self.after_comma,
            dangling: self.dangling,
        }
    }
}

impl Scanner {
    /// Whether no count of the pass is above `n`.
    spec fn within(&self, n: nat) -> bool {
        &&& self.depth <= n
        &&& self.deepest <= n
        &&& self.run <= n
        &&& self.longest_key <= n
        &&& self.longest_exponent <= n
        &&& self.exponent matches Some(digits) ==> digits <= n
    }

    fn step(self, b: u8, Ghost(n): Ghost<nat>) -> (r: Scanner)
        requires
            self.within(n),
            n < usize::MAX,
        ensures
            r@ == scan_step(self@, b),
            r.within(n + 1),
    {
        let mut s = self;
        if s.in_text {
            if s.escaped {
                s.escaped = false;
                s.run = s.run + 1;
            } else if b == 0x5c {
                s.escaped = true;
                s.run = s.run + 1;
            } else if b == 0x22 {
                s.in_text = false;
            } else {
                s.run = s.run + 1;
            }
            return s;
        }
        if b == 0x20 || b == 0x0a || b == 0x09 || b == 0x0d {
            s.exponent = None;
            return s;
        }
        let after_comma = s.after_comma;
        s.after_comma = b == 0x2c;
        if b == 0x2c {
            s.exponent = None;
        } else if b == 0x22 {
            s.in_text = true;
            s.run = 0;
            s.exponent = None;
        } else if b == 0x5b || b == 0x7b {
            s.depth = s.depth + 1;
            if s.depth > s.deepest {
                s.deepest = s.depth;
            }
            s.exponent = None;
        } else if b == 0x5d || b == 0x7d {
            if s.depth > 0 {
                s.depth = s.depth - 1;
            }
            if b == 0x7d && after_comma {
                s.dangling = true;
            }
            s.exponent = None;
        } else if b == 0x3a {
            if s.run > s.longest_key {
                s.longest_key = s.run;
            }
            s.exponent = None;
        } else if b == 0x65 || b == 0x45 {
            s.exponent = Some(0);
        } else if 0x30 <= b && b <= 0x39 {
            match s.exponent {
                Some(digits) => {
                    s.exponent = Some(digits + 1);
                    if digits + 1 > s.longest_exponent {
                        s.longest_exponent = digits + 1;
                    }
                },
                None => {},
            }
        } else if b == 0x2b || b == 0x2d {
            match s.exponent {
                Some(0) => {},
                _ => {
                    s.exponent = None;
                },
            }
        } else {
            s.exponent = None;
        }
        s
    }
}

/// Passes over `body` once and tells its shape.
pub fn shape(body: &[u8]) -> (r: Shape)
    ensures
        r == shape_of(body@),
{
    if body.len() > MAX_BODY {
        return Shape::BeyondLimits;
    }
    let mut s = Scanner {
        in_text: false,
        escaped: false,
        depth: 0,
        deepest: 0,
        run: 0,
        longest_key: 0,
        exponent: None,
        longest_exponent: 0,
        after_comma: false,
        dangling: false,
    };
    let mut i: usize = 0;
    assert(body@.take(0) =~= Seq::empty());
    while i < body.len()
        invariant
            i <= body.len(),
            body.len() <= MAX_BODY,
            s.within(i as nat),
            s@ == scan(body@.take(i as int)),
        decreases body.len() - i,
    {
        proof {
            assert(body@.take(i + 1).drop_last() =~= body@.take(i as int));
            assert(body@.take(i + 1).last() == body@[i as int]);
        }
        s = s.step(body[i], Ghost(i as nat));
        i += 1;
    }
    assert(body@.take(i as int) =~= body@);
    if s.deepest > MAX_DEPTH || s.longest_key > MAX_KEY || s.longest_exponent > MAX_EXPONENT {
        Shape::BeyondLimits
    } else if s.dangling {
        Shape::DanglingComma
    } else {
        Shape::Tame
    }
}

/// `Json::from_reader` of rustc-serialize on the bytes of `body`: the value it
/// builds, or its error where the bytes are no UTF-8 text or no JSON document.
/// The outcome depends on the bytes alone.
///
/// The parser is called on tame bodies only, for these reasons. It builds
/// values by recursion, one call for each level of nesting. It keeps the keys
/// of the objects that are open in one buffer, which it addresses with 16
/// bits. It adds up the digits of an exponent, and counts the items of an
/// array, without a check. And where an object ends behind a comma it loses
/// track of where it stands, and may panic on what follows. In a tame body no
/// object ends so; the recursion is at most `MAX_DEPTH` deep; the buffer holds
/// at most `MAX_DEPTH` keys of `MAX_KEY` bytes, which is below 65536; and
/// neither sum can reach the end of its type.
#[verifier::external_body]
fn read_json(body: &[u8]) -> (r: Result<Json, ParserError>)
    requires
        tame(body@),
    ensures
        match r {
            Ok(j) => json_read(body@) == Some(json_model(j)),
            Err(_) => json_read(body@).is_none(),
        },
{
    let mut rest = body;
    Json::from_reader(&mut rest)
}

/// Tells the variants of rustc-serialize's `Json` apart and hands out what the
/// variant holds: scalars by value, the items of an array as they stand, the
/// entries of an object in the order of its map, which is that of the keys.
#[verifier::external_body]
fn json_node<'a>(j: &'a Json) -> (n: JsonNode<'a>)
    ensures
        node_model(n) == json_model(*j),
{
    match j {
        Json::Null => JsonNode::Null,
        Json::Boolean(b) => JsonNode::Boolean(*b),
        Json::I64(v) => JsonNode::I64(*v),
        Json::U64(v) => JsonNode::U64(*v),
        Json::F64(_) => JsonNode::Float,
        Json::String(s) => JsonNode::Text(s),
        Json::Array(items) => JsonNode::Array(items),
        Json::Object(fields) => JsonNode::Object(fields.iter().collect()),
    }
}

/// Copies a parsed value, level by level, into a value of this library.
fn to_value(j: &Json) -> (v: JsonValue)
    ensures
        v@ == json_model(*j),
    decreases json_model(*j),
{
    match json_node(j) {
        JsonNode::Null => JsonValue::Null,
        JsonNode::Boolean(b) => JsonValue::Boolean(b),
        JsonNode::I64(n) => JsonValue::I64(n),
        JsonNode::U64(n) => JsonValue::U64(n),
        JsonNode::Float => JsonValue::Float,
        JsonNode::Text(s) => JsonValue::Text(s.clone()),
        JsonNode::Array(items) => {
            let mut out: Vec<JsonValue> = Vec::new();
            let mut i: usize = 0;
            while i < items.len()
                invariant
                    i <= items.len(),
                    out@.len() == i,
                    json_model(*j) == JsonModel::Array(
                        Seq::new(items@.len(), |k: int| json_model(items@[k])),
                    ),
                    forall|k: int| 0 <= k < i ==> (#[trigger] out@[k])@ == json_model(items@[k]),
                decreases items.len() - i,
            {
                proof {
                    let whole = json_model(*j);
                    assert(whole->Array_0[i as int] == json_model(items@[i as int]));
                    assert(decreases_to!(whole => whole->Array_0));
                    assert(decreases_to!(whole->Array_0 => whole->Array_0[i as int]));
                }
                let child = to_value(&items[i]);
                out.push(child);
                i += 1;
            }
            let v = JsonValue::Array(out);
            assert(v@->Array_0 =~= Seq::new(items@.len(), |k: int| json_model(items@[k])));
            v
        },
        JsonNode::Object(fields) => {
            let mut out: Vec<(String, JsonValue)> = Vec::new();
            let mut i: usize = 0;
            while i < fields.len()
                invariant
                    i <= fields.len(),
                    out@.len() == i,
                    json_model(*j) == JsonModel::Object(
                        Seq::new(
                            fields@.len(),
                            |k: int| (fields@[k].0@, json_model(*fields@[k].1)),
                        ),
                    ),
                    forall|k: int|
                        0 <= k < i ==> (#[trigger] out@[k]).0@ == fields@[k].0@ && out@[k].1@
                            == json_model(*fields@[k].1),
                decreases fields.len() - i,
            {
                proof {
                    let whole = json_model(*j);
                    let entry = whole->Object_0[i as int];
                    assert(entry.1 == json_model(*fields@[i as int].1));
                    assert(decreases_to!(whole => whole->Object_0));
                    assert(decreases_to!(whole->Object_0 => whole->Object_0[i as int]));
                    assert(decreases_to!(entry => entry.1));
                }
                let key = fields[i].0.clone();
                let child = to_value(fields[i].1);
                out.push((key, child));
                i += 1;
            }
            let v = JsonValue::Object(out);
            assert(v@->Object_0 =~= Seq::new(
                fields@.len(),
                |k: int| (fields@[k].0@, json_model(*fields@[k].1)),
            ));
            v
        },
    }
}

/// Why a body was not read as a document.
#[derive(Debug, Copy, Clone, PartialEq, Eq, Structural)]
pub enum ReadFault {
    /// The body is beyond the limits, and was not handed to the parser.
    BeyondLimits,
    /// The bytes are no UTF-8 text, or the text is no JSON document.
    Syntax,
}

/// What reading `body` gives: the document, or why there is none.
pub open spec fn document(body: Seq<u8>) -> Result<JsonModel, ReadFault> {
    match shape_of(body) {
        Shape::BeyondLimits => Err(ReadFault::BeyondLimits),
        Shape::DanglingComma => Err(ReadFault::Syntax),
        Shape::Tame => match json_read(body) {
            Some(doc) => Ok(doc),
            None => Err(ReadFault::Syntax),
        },
    }
}

/// Reads `body` as one JSON document.
pub fn parse(body: &[u8]) -> (r: Result<JsonValue, ReadFault>)
    ensures
        match r {
            Ok(v) => document(body@) == Ok::<JsonModel, ReadFault>(v@),
            Err(fault) => document(body@) == Err::<JsonModel, ReadFault>(fault),
        },
{
    match shape(body) {
        Shape::BeyondLimits => Err(ReadFault::BeyondLimits),
        Shape::DanglingComma => Err(ReadFault::Syntax),
        Shape::Tame => match read_json(body) {
            Ok(j) => Ok(to_value(&j)),
            Err(_) => Err(ReadFault::Syntax),
        },
    }
}

} // verus!
