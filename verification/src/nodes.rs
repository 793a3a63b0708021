//! Node identities, the error taxonomy, and the catalog of node kinds.
//!
//! A node is a unit of computation with ordered input slots and output
//! slots. The catalog ships three kinds: a constant source, a file-reading
//! source with an internal cache, and a variadic-typed summation node. The
//! set of kinds is closed, so the node abstraction is a tagged union
//! ([`LazNode`]) whose methods dispatch to the concrete kind.

use vstd::prelude::*;

use crate::types::{lemma_seq_deep_view, seq_deep_view, LazValue, ValueModel};

verus! {

/// An opaque 64-bit handle naming one registered node.
///
/// The environment mints identifiers monotonically and never reuses one.
#[derive(Clone, Copy, Hash, Debug, PartialEq, Eq, Structural)]
pub struct ID(pub u64);

/// Names one produced value of one node: the producer side of an edge.
#[derive(Clone, Copy, Hash, Debug, PartialEq, Eq, Structural)]
pub struct OutputID {
    pub node: ID,
    pub outport: usize,
}

/// Names one consumed slot of one node: the consumer side of an edge.
/// Used only for connection bookkeeping, never by evaluation.
#[derive(Clone, Copy, Hash, Debug, PartialEq, Eq, Structural)]
pub struct InputID {
    pub node: ID,
    pub inport: usize,
}

/// The mathematical shape of a [`LazError`].
pub enum ErrorModel {
    InvalidInputType { from: OutputID, expected: Seq<char> },
    NoSuchNode(ID),
    NoSuchOutport(OutputID),
    Other(Seq<char>),
}

/// A typed evaluation failure. Failures propagate to the caller of
/// evaluation unchanged; they are never swallowed and never appear as values.
#[derive(Debug)]
pub enum LazError {
    /// A node received a value of the wrong variant on a named input; `from`
    /// identifies the upstream production that made the offending value.
    InvalidInputType { from: OutputID, expected: String },
    /// An identifier was referenced that is not present in the environment.
    NoSuchNode(ID),
    /// An upstream node evaluated successfully but produced fewer outputs
    /// than the requested port index.
    NoSuchOutport(OutputID),
    /// Catch-all for host failures, with a fixed diagnostic string.
    Other(String),
}

impl View for LazError {
    type V = ErrorModel;

    open spec fn view(&self) -> ErrorModel {
        match self {
            LazError::InvalidInputType { from, expected } => ErrorModel::InvalidInputType {
                from: *from,
                expected: expected@,
            },
            LazError::NoSuchNode(id) => ErrorModel::NoSuchNode(*id),
            LazError::NoSuchOutport(out) => ErrorModel::NoSuchOutport(*out),
            LazError::Other(msg) => ErrorModel::Other(msg@),
        }
    }
}

impl PartialEq for LazError {
    /// Equality is structural: two failures are equal exactly when their
    /// models are.
    fn eq(&self, other: &Self) -> (r: bool)
        ensures
            r == (self@ == other@),
    {
        match self {
            LazError::InvalidInputType { from: f1, expected: e1 } => match other {
                LazError::InvalidInputType { from: f2, expected: e2 } => *f1 == *f2 && *e1 == *e2,
                _ => false,
            },
            LazError::NoSuchNode(a) => match other {
                LazError::NoSuchNode(b) => *a == *b,
                _ => false,
            },
            LazError::NoSuchOutport(a) => match other {
                LazError::NoSuchOutport(b) => *a == *b,
                _ => false,
            },
            LazError::Other(a) => match other {
                LazError::Other(b) => *a == *b,
                _ => false,
            },
        }
    }
}

impl vstd::std_specs::cmp::PartialEqSpecImpl for LazError {
    open spec fn obeys_eq_spec() -> bool {
        true
    }

    open spec fn eq_spec(&self, other: &LazError) -> bool {
        self@ == other@
    }
}

/// The mathematical shape of an [`EvalStop`].
pub enum StopModel {
    Failed(ErrorModel),
    NeedFile { node: ID, path: Seq<char> },
}

/// Why an evaluation stopped short of a value.
///
/// The engine performs no I/O itself. When a file-reading node misses its
/// cache, evaluation stops with `NeedFile`; the host reads the named path,
/// hands the bytes to the environment, and evaluates again.
#[derive(Debug)]
pub enum EvalStop {
    /// A typed failure; evaluating again without changing the graph returns
    /// the same failure.
    Failed(LazError),
    /// The node `node` needs the contents of the file at `path`.
    NeedFile { node: ID, path: String },
}

impl View for EvalStop {
    type V = StopModel;

    open spec fn view(&self) -> StopModel {
        match self {
            EvalStop::Failed(e) => StopModel::Failed(e@),
            EvalStop::NeedFile { node, path } => StopModel::NeedFile {
                node: *node,
                path: path@,
            },
        }
    }
}

impl PartialEq for EvalStop {
    /// Equality is structural: two stops are equal exactly when their models
    /// are.
    fn eq(&self, other: &Self) -> (r: bool)
        ensures
            r == (self@ == other@),
    {
        match self {
            EvalStop::Failed(a) => match other {
                EvalStop::Failed(b) => *a == *b,
                _ => false,
            },
            EvalStop::NeedFile { node: n1, path: p1 } => match other {
                EvalStop::NeedFile { node: n2, path: p2 } => *n1 == *n2 && *p1 == *p2,
                _ => false,
            },
        }
    }
}

impl vstd::std_specs::cmp::PartialEqSpecImpl for EvalStop {
    open spec fn obeys_eq_spec() -> bool {
        true
    }

    open spec fn eq_spec(&self, other: &EvalStop) -> bool {
        self@ == other@
    }
}

/// Human-readable labels for a node's input and output slots. Purely
/// descriptive; evaluation never consults it, but every node kind keeps the
/// slot counts consistent with its actual inputs and outputs.
pub struct IODescription {
    pub inputs: Vec<String>,
    pub outputs: Vec<String>,
}

/// The mathematical shape of a node: its kind, the upstream output each
/// input slot is wired to, and (for the file reader) the cache contents.
pub enum NodeModel {
    Constant { value: ValueModel },
    ReadFile { input: OutputID, cache: Option<(Seq<char>, Seq<u8>)> },
    Sum { input: OutputID },
}

/// The upstream outputs a node depends on, one per input slot, in slot order.
pub open spec fn node_input_refs(n: NodeModel) -> Seq<OutputID> {
    match n {
        NodeModel::Constant { .. } => Seq::empty(),
        NodeModel::ReadFile { input, .. } => Seq::empty().push(input),
        NodeModel::Sum { input } => Seq::empty().push(input),
    }
}

/// A sequence of bytes as an array of `Byte` values.
pub open spec fn byte_models(bytes: Seq<u8>) -> Seq<ValueModel> {
    bytes.map_values(|b: u8| ValueModel::Byte(b))
}

/// The model of an evaluation result.
pub open spec fn outcome_model(r: Result<Vec<LazValue>, EvalStop>) -> Result<
    Seq<ValueModel>,
    StopModel,
> {
    match r {
        Ok(vs) => Ok(seq_deep_view(vs@)),
        Err(stop) => Err(stop@),
    }
}

/// The models of resolved input pairs, in slot order.
pub open spec fn pairs_model(s: Seq<(OutputID, LazValue)>) -> Seq<(OutputID, ValueModel)> {
    Seq::new(s.len(), |i: int| (s[i].0, s[i].1.deep_view()))
}

/// Every element is a `Byte`.
pub open spec fn all_bytes(s: Seq<ValueModel>) -> bool {
    forall|i: int| 0 <= i < s.len() ==> s[i] is Byte
}

/// Every element is an `Unsigned`.
pub open spec fn all_unsigned(s: Seq<ValueModel>) -> bool {
    forall|i: int| 0 <= i < s.len() ==> s[i] is Unsigned
}

/// Every element is a `Signed`.
pub open spec fn all_signed(s: Seq<ValueModel>) -> bool {
    forall|i: int| 0 <= i < s.len() ==> s[i] is Signed
}

/// The unbounded sum of the elements read as bytes.
pub open spec fn byte_total(s: Seq<ValueModel>) -> int
    decreases s.len(),
{
    if s.len() == 0 {
        0
    } else {
        byte_total(s.drop_last()) + s.last()->Byte_0
    }
}

/// The unbounded sum of the elements read as 64-bit unsigned integers.
pub open spec fn unsigned_total(s: Seq<ValueModel>) -> int
    decreases s.len(),
{
    if s.len() == 0 {
        0
    } else {
        unsigned_total(s.drop_last()) + s.last()->Unsigned_0
    }
}

/// The unbounded sum of the elements read as 64-bit signed integers.
pub open spec fn signed_total(s: Seq<ValueModel>) -> int
    decreases s.len(),
{
    if s.len() == 0 {
        0
    } else {
        signed_total(s.drop_last()) + s.last()->Signed_0
    }
}

/// `x` reduced modulo 2^64 into the unsigned 64-bit range.
pub open spec fn wrap_u64(x: int) -> int {
    x % 0x1_0000_0000_0000_0000
}

/// `x` reduced modulo 2^64 into the signed 64-bit range.
pub open spec fn wrap_i64(x: int) -> int {
    (x + 0x8000_0000_0000_0000) % 0x1_0000_0000_0000_0000 - 0x8000_0000_0000_0000
}

/// What summing an array yields: the three homogeneous passes are tried in
/// strict order — bytes, then unsigned, then signed 64-bit integers. Every
/// pass wraps on overflow (modulo 256 for bytes, modulo 2^64 for the wide
/// kinds): overflow is a deliberate non-error here, never a failure. An
/// empty array passes the byte pass vacuously with sum zero. A mixed or
/// non-numeric array is an invalid input.
pub open spec fn sum_outputs(items: Seq<ValueModel>, from: OutputID) -> Result<
    Seq<ValueModel>,
    StopModel,
> {
    if all_bytes(items) {
        Ok(Seq::empty().push(ValueModel::Byte((byte_total(items) % 256) as u8)))
    } else if all_unsigned(items) {
        Ok(Seq::empty().push(ValueModel::Unsigned(wrap_u64(unsigned_total(items)) as u64)))
    } else if all_signed(items) {
        Ok(Seq::empty().push(ValueModel::Signed(wrap_i64(signed_total(items)) as i64)))
    } else {
        Err(
            StopModel::Failed(
                ErrorModel::InvalidInputType { from, expected: "Could not sum"@ },
            ),
        )
    }
}

/// What one compute step of a node yields, given its model, its own
/// identifier, and the resolved value of each input slot in slot order.
pub open spec fn node_eval(n: NodeModel, self_id: ID, inputs: Seq<(OutputID, ValueModel)>) -> Result<
    Seq<ValueModel>,
    StopModel,
> {
    match n {
        NodeModel::Constant { value } => Ok(Seq::empty().push(value)),
        NodeModel::ReadFile { cache, .. } => {
            let from = inputs[0].0;
            match inputs[0].1 {
                ValueModel::String(path) => match cache {
                    Some(entry) => if entry.0 == path {
                        Ok(Seq::empty().push(ValueModel::Array(byte_models(entry.1))))
                    } else {
                        Err(StopModel::NeedFile { node: self_id, path })
                    },
                    None => Err(StopModel::NeedFile { node: self_id, path }),
                },
                _ => Err(
                    StopModel::Failed(ErrorModel::InvalidInputType { from, expected: "String"@ }),
                ),
            }
        },
        NodeModel::Sum { .. } => {
            let from = inputs[0].0;
            match inputs[0].1 {
                ValueModel::Array(items) => sum_outputs(items, from),
                _ => Err(
                    StopModel::Failed(ErrorModel::InvalidInputType { from, expected: "[{num}]"@ }),
                ),
            }
        },
    }
}

/// Every node kind produces exactly one output value when it succeeds — the
/// same count its shape description declares.
pub proof fn lemma_node_output_count(n: NodeModel, self_id: ID, inputs: Seq<(OutputID, ValueModel)>)
    ensures
        node_eval(n, self_id, inputs) matches Ok(outs) ==> outs.len() == 1,
{
}

/// A source node with zero inputs and one output: a fixed value baked in at
/// construction.
pub struct ConstantNode {
    pub value: LazValue,
}

impl View for ConstantNode {
    type V = NodeModel;

    open spec fn view(&self) -> NodeModel {
        NodeModel::Constant { value: self.value.deep_view() }
    }
}

impl ConstantNode {
    /// The upstream outputs this node depends on: none.
    pub fn inputs(&self) -> (r: Vec<OutputID>)
        ensures
            r@ == node_input_refs(self@),
    {
        let r: Vec<OutputID> = Vec::new();
        proof {
            assert(r@ =~= node_input_refs(self@));
        }
        r
    }

    /// Slot labels; the counts match the actual slots.
    pub fn io_description(&self) -> (r: IODescription)
        ensures
            r.inputs@.len() == node_input_refs(self@).len(),
            r.outputs@.len() == 1,
    {
        let mut outputs: Vec<String> = Vec::new();
        outputs.push("Value".to_owned());
        IODescription { inputs: Vec::new(), outputs }
    }

    /// Ignores its (always empty) input vector and returns its stored value.
    /// Never fails.
    pub fn evaluate_for(&self, self_id: ID, inputs: Vec<(OutputID, LazValue)>) -> (r: Result<
        Vec<LazValue>,
        EvalStop,
    >)
        requires
            inputs@.len() == node_input_refs(self@).len(),
        ensures
            outcome_model(r) == node_eval(self@, self_id, pairs_model(inputs@)),
    {
        let mut out: Vec<LazValue> = Vec::new();
        out.push(self.value.clone());
        proof {
            broadcast use lemma_seq_deep_view;

            assert(seq_deep_view(out@) =~= Seq::empty().push(self.value.deep_view()));
        }
        Ok(out)
    }
}

/// Builds the `Array`-of-`Byte` value that presents file contents.
fn byte_values(bytes: &Vec<u8>) -> (r: Vec<LazValue>)
    ensures
        seq_deep_view(r@) == byte_models(bytes@),
{
    let mut r: Vec<LazValue> = Vec::new();
    let mut k: usize = 0;
    while k < bytes.len()
        invariant
            k <= bytes@.len(),
            r@.len() == k,
            forall|j: int| 0 <= j < k ==> r@[j] == LazValue::Byte(bytes@[j]),
        decreases bytes@.len() - k,
    {
        r.push(LazValue::Byte(bytes[k]));
        k = k + 1;
    }
    proof {
        broadcast use lemma_seq_deep_view;

        assert(seq_deep_view(r@) =~= byte_models(bytes@));
    }
    r
}

/// A source node with one input (a `String` path) and one output (the file's
/// contents as an `Array` of `Byte`).
///
/// The node holds an owned cache of the last path read and its byte
/// contents. While the requested path equals the cached one, evaluation
/// serves the cached bytes and never asks the host for the file again. On a
/// cache miss the node stops with [`EvalStop::NeedFile`]; the host reads the
/// file and stores it through the environment, which replaces the cache.
pub struct ReadFileNode {
    pub file_name: OutputID,
    file_cache: Option<(String, Vec<u8>)>,
}

impl View for ReadFileNode {
    type V = NodeModel;

    closed spec fn view(&self) -> NodeModel {
        NodeModel::ReadFile {
            input: self.file_name,
            cache: match self.file_cache {
                Some(entry) => Some((entry.0@, entry.1@)),
                None => None,
            },
        }
    }
}

/// A file-reading node's model always has the `ReadFile` shape, whatever its
/// cache holds.
pub broadcast proof fn lemma_read_file_node_view(n: ReadFileNode)
    ensures
        (#[trigger] n@) is ReadFile,
{
}

impl ReadFileNode {
    /// A file-reading node wired to `file_name`, with an empty cache.
    pub fn new(file_name: OutputID) -> (r: ReadFileNode)
        ensures
            r@ == (NodeModel::ReadFile { input: file_name, cache: None }),
    {
        ReadFileNode { file_name, file_cache: None }
    }

    /// Stores `contents` as the cached bytes for `path`, replacing any
    /// earlier cache entry.
    pub fn supply_contents(&mut self, path: String, contents: Vec<u8>)
        ensures
            final(self)@ == (NodeModel::ReadFile {
                input: old(self)@->ReadFile_input,
                cache: Some((path@, contents@)),
            }),
    {
        self.file_cache = Some((path, contents));
    }

    /// The upstream outputs this node depends on: the path input.
    pub fn inputs(&self) -> (r: Vec<OutputID>)
        ensures
            r@ == node_input_refs(self@),
    {
        let mut r: Vec<OutputID> = Vec::new();
        r.push(self.file_name);
        proof {
            assert(r@ =~= node_input_refs(self@));
        }
        r
    }

    /// Slot labels; the counts match the actual slots.
    pub fn io_description(&self) -> (r: IODescription)
        ensures
            r.inputs@.len() == node_input_refs(self@).len(),
            r.outputs@.len() == 1,
    {
        let mut inputs: Vec<String> = Vec::new();
        inputs.push("File name <string>".to_owned());
        let mut outputs: Vec<String> = Vec::new();
        outputs.push("Contents [byte]".to_owned());
        IODescription { inputs, outputs }
    }

    /// Requires exactly one resolved input; it must be a `String`, else the
    /// step fails with an invalid-input-type error naming the offending
    /// upstream output and the expected label. On a cache hit the cached
    /// bytes come back as an `Array` of `Byte`; on a miss the step stops
    /// with a request for the file at the resolved path.
    pub fn evaluate_for(&self, self_id: ID, inputs: Vec<(OutputID, LazValue)>) -> (r: Result<
        Vec<LazValue>,
        EvalStop,
    >)
        requires
            inputs@.len() == node_input_refs(self@).len(),
        ensures
            outcome_model(r) == node_eval(self@, self_id, pairs_model(inputs@)),
    {
        let from = inputs[0].0;
        let path = match &inputs[0].1 {
            LazValue::String(p) => p,
            _ => {
                return Err(
                    EvalStop::Failed(
                        LazError::InvalidInputType { from, expected: "String".to_owned() },
                    ),
                );
            },
        };
        match &self.file_cache {
            Some(entry) => {
                if entry.0 == *path {
                    let contents = byte_values(&entry.1);
                    let mut out: Vec<LazValue> = Vec::new();
                    out.push(LazValue::Array(contents));
                    proof {
                        broadcast use lemma_seq_deep_view;

                        assert(seq_deep_view(out@) =~= Seq::empty().push(
                            ValueModel::Array(byte_models(entry.1@)),
                        ));
                    }
                    Ok(out)
                } else {
                    Err(EvalStop::NeedFile { node: self_id, path: path.clone() })
                }
            },
            None => Err(EvalStop::NeedFile { node: self_id, path: path.clone() }),
        }
    }
}

/// A value `r2` reached from `t % m` by adding `b` and correcting by at most
/// one multiple of `m` back into `[0, m)` is exactly `(t + b) % m`.
proof fn lemma_mod_step(t: int, b: int, m: int, r: int, r2: int)
    requires
        0 < m,
        r == t % m,
        r2 == r + b || r2 == r + b - m || r2 == r + b + m,
        0 <= r2 < m,
    ensures
        r2 == (t + b) % m,
{
    vstd::arithmetic::div_mod::lemma_add_mod_noop(t, b, m);
    vstd::arithmetic::div_mod::lemma_add_mod_noop(r, b, m);
    vstd::arithmetic::div_mod::lemma_small_mod(r as nat, m as nat);
    vstd::arithmetic::div_mod::lemma_small_mod(r2 as nat, m as nat);
    if r2 == r + b - m {
        vstd::arithmetic::div_mod::lemma_mod_add_multiples_vanish(r2, m);
    } else if r2 == r + b + m {
        vstd::arithmetic::div_mod::lemma_mod_sub_multiples_vanish(r2, m);
    }
}

/// The byte pass: `Some` of the wrapped sum when every element is a `Byte`,
/// else `None`.
fn sum_pass_bytes(items: &Vec<LazValue>) -> (r: Option<u8>)
    ensures
        match r {
            Some(total) => all_bytes(seq_deep_view(items@)) && total == byte_total(
                seq_deep_view(items@),
            ) % 256,
            None => !all_bytes(seq_deep_view(items@)),
        },
{
    broadcast use lemma_seq_deep_view;

    let ghost m = seq_deep_view(items@);
    let mut acc: u8 = 0;
    let mut k: usize = 0;
    while k < items.len()
        invariant
            m == seq_deep_view(items@),
            m.len() == items@.len(),
            forall|j: int| 0 <= j < items@.len() ==> m[j] == items@[j].deep_view(),
            k <= items@.len(),
            all_bytes(m.take(k as int)),
            acc == byte_total(m.take(k as int)) % 256,
        decreases items@.len() - k,
    {
        let b: u8 = match &items[k] {
            LazValue::Byte(b) => *b,
            _ => {
                proof {
                    assert(!(m[k as int] is Byte));
                }
                return None;
            },
        };
        proof {
            assert(m.take(k + 1 as int).drop_last() =~= m.take(k as int));
            assert(m.take(k + 1 as int).last() == m[k as int]);
            assert(m[k as int] == ValueModel::Byte(b));
            lemma_mod_step(
                byte_total(m.take(k as int)),
                b as int,
                256,
                acc as int,
                vstd::wrapping::u8_specs::wrapping_add(acc, b) as int,
            );
        }
        acc = acc.wrapping_add(b);
        k = k + 1;
    }
    proof {
        assert(m.take(items@.len() as int) =~= m);
    }
    Some(acc)
}

/// The unsigned pass: `Some` of the sum modulo 2^64 when every element is an
/// `Unsigned`, else `None`.
fn sum_pass_unsigned(items: &Vec<LazValue>) -> (r: Option<u64>)
    ensures
        match r {
            Some(total) => all_unsigned(seq_deep_view(items@)) && total == wrap_u64(
                unsigned_total(seq_deep_view(items@)),
            ),
            None => !all_unsigned(seq_deep_view(items@)),
        },
{
    broadcast use lemma_seq_deep_view;

    let ghost m = seq_deep_view(items@);
    let mut acc: u64 = 0;
    let mut k: usize = 0;
    while k < items.len()
        invariant
            m == seq_deep_view(items@),
            m.len() == items@.len(),
            forall|j: int| 0 <= j < items@.len() ==> m[j] == items@[j].deep_view(),
            k <= items@.len(),
            all_unsigned(m.take(k as int)),
            acc == wrap_u64(unsigned_total(m.take(k as int))),
        decreases items@.len() - k,
    {
        let b: u64 = match &items[k] {
            LazValue::Unsigned(b) => *b,
            _ => {
                proof {
                    assert(!(m[k as int] is Unsigned));
                }
                return None;
            },
        };
        proof {
            assert(m.take(k + 1 as int).drop_last() =~= m.take(k as int));
            assert(m.take(k + 1 as int).last() == m[k as int]);
            assert(m[k as int] == ValueModel::Unsigned(b));
            lemma_mod_step(
                unsigned_total(m.take(k as int)),
                b as int,
                0x1_0000_0000_0000_0000,
                acc as int,
                vstd::wrapping::u64_specs::wrapping_add(acc, b) as int,
            );
        }
        acc = acc.wrapping_add(b);
        k = k + 1;
    }
    proof {
        assert(m.take(items@.len() as int) =~= m);
    }
    Some(acc)
}

/// The signed pass: `Some` of the sum wrapped into the signed 64-bit range
/// when every element is a `Signed`, else `None`.
fn sum_pass_signed(items: &Vec<LazValue>) -> (r: Option<i64>)
    ensures
        match r {
            Some(total) => all_signed(seq_deep_view(items@)) && total == wrap_i64(
                signed_total(seq_deep_view(items@)),
            ),
            None => !all_signed(seq_deep_view(items@)),
        },
{
    broadcast use lemma_seq_deep_view;

    let ghost m = seq_deep_view(items@);
    let mut acc: i64 = 0;
    let mut k: usize = 0;
    while k < items.len()
        invariant
            m == seq_deep_view(items@),
            m.len() == items@.len(),
            forall|j: int| 0 <= j < items@.len() ==> m[j] == items@[j].deep_view(),
            k <= items@.len(),
            all_signed(m.take(k as int)),
            acc == wrap_i64(signed_total(m.take(k as int))),
        decreases items@.len() - k,
    {
        let b: i64 = match &items[k] {
            LazValue::Signed(b) => *b,
            _ => {
                proof {
                    assert(!(m[k as int] is Signed));
                }
                return None;
            },
        };
        proof {
            assert(m.take(k + 1 as int).drop_last() =~= m.take(k as int));
            assert(m.take(k + 1 as int).last() == m[k as int]);
            assert(m[k as int] == ValueModel::Signed(b));
            let acc2 = vstd::wrapping::i64_specs::wrapping_add(acc, b) as int;
            lemma_mod_step(
                signed_total(m.take(k as int)) + 0x8000_0000_0000_0000,
                b as int,
                0x1_0000_0000_0000_0000,
                acc as int + 0x8000_0000_0000_0000,
                acc2 + 0x8000_0000_0000_0000,
            );
        }
        acc = acc.wrapping_add(b);
        k = k + 1;
    }
    proof {
        assert(m.take(items@.len() as int) =~= m);
    }
    Some(acc)
}

/// The reducer behind [`SumNode`]: tries the byte, unsigned, and signed
/// passes in strict order over one array.
fn sum_items(items: &Vec<LazValue>, from: OutputID) -> (r: Result<Vec<LazValue>, EvalStop>)
    ensures
        outcome_model(r) == sum_outputs(seq_deep_view(items@), from),
{
    broadcast use lemma_seq_deep_view;

    if let Some(total) = sum_pass_bytes(items) {
        let mut out: Vec<LazValue> = Vec::new();
        out.push(LazValue::Byte(total));
        proof {
            assert(seq_deep_view(out@) =~= Seq::empty().push(
                ValueModel::Byte((byte_total(seq_deep_view(items@)) % 256) as u8),
            ));
        }
        return Ok(out);
    }
    if let Some(total) = sum_pass_unsigned(items) {
        let mut out: Vec<LazValue> = Vec::new();
        out.push(LazValue::Unsigned(total));
        proof {
            assert(seq_deep_view(out@) =~= Seq::empty().push(
                ValueModel::Unsigned(wrap_u64(unsigned_total(seq_deep_view(items@))) as u64),
            ));
        }
        return Ok(out);
    }
    if let Some(total) = sum_pass_signed(items) {
        let mut out: Vec<LazValue> = Vec::new();
        out.push(LazValue::Signed(total));
        proof {
            assert(seq_deep_view(out@) =~= Seq::empty().push(
                ValueModel::Signed(wrap_i64(signed_total(seq_deep_view(items@))) as i64),
            ));
        }
        return Ok(out);
    }
    Err(EvalStop::Failed(LazError::InvalidInputType { from, expected: "Could not sum".to_owned() }))
}

/// A node with one input (an `Array` of homogeneous numeric values) and one
/// output (a single value of the same numeric kind, their sum).
pub struct SumNode {
    pub input_list: OutputID,
}

impl View for SumNode {
    type V = NodeModel;

    open spec fn view(&self) -> NodeModel {
        NodeModel::Sum { input: self.input_list }
    }
}

impl SumNode {
    /// The upstream outputs this node depends on: the array input.
    pub fn inputs(&self) -> (r: Vec<OutputID>)
        ensures
            r@ == node_input_refs(self@),
    {
        let mut r: Vec<OutputID> = Vec::new();
        r.push(self.input_list);
        proof {
            assert(r@ =~= node_input_refs(self@));
        }
        r
    }

    /// Slot labels; the counts match the actual slots.
    pub fn io_description(&self) -> (r: IODescription)
        ensures
            r.inputs@.len() == node_input_refs(self@).len(),
            r.outputs@.len() == 1,
    {
        let mut inputs: Vec<String> = Vec::new();
        inputs.push("List of numbers [{num}]".to_owned());
        let mut outputs: Vec<String> = Vec::new();
        outputs.push("Sum {num}".to_owned());
        IODescription { inputs, outputs }
    }

    /// Requires exactly one resolved input; it must be an `Array`, else the
    /// step fails with an invalid-input-type error. The array is reduced as
    /// [`sum_outputs`] states.
    pub fn evaluate_for(&self, self_id: ID, inputs: Vec<(OutputID, LazValue)>) -> (r: Result<
        Vec<LazValue>,
        EvalStop,
    >)
        requires
            inputs@.len() == node_input_refs(self@).len(),
        ensures
            outcome_model(r) == node_eval(self@, self_id, pairs_model(inputs@)),
    {
        let from = inputs[0].0;
        match &inputs[0].1 {
            LazValue::Array(items) => sum_items(items, from),
            _ => Err(
                EvalStop::Failed(
                    LazError::InvalidInputType { from, expected: "[{num}]".to_owned() },
                ),
            ),
        }
    }
}

/// `n` with the input slot `slot` rewired to `target`; `n` unchanged when it
/// has no such slot.
pub open spec fn node_rewired(n: NodeModel, slot: int, target: OutputID) -> NodeModel {
    match n {
        NodeModel::Constant { .. } => n,
        NodeModel::ReadFile { input, cache } => if slot == 0 {
            NodeModel::ReadFile { input: target, cache }
        } else {
            n
        },
        NodeModel::Sum { .. } => if slot == 0 {
            NodeModel::Sum { input: target }
        } else {
            n
        },
    }
}

/// A registered node: one of the closed catalog of node kinds. Every kind
/// supports the same capability set — report its input slots, report its
/// slot labels, re-wire an input, and compute its outputs from resolved
/// input values.
pub enum LazNode {
    Constant(ConstantNode),
    ReadFile(ReadFileNode),
    Sum(SumNode),
}

impl View for LazNode {
    type V = NodeModel;

    open spec fn view(&self) -> NodeModel {
        match self {
            LazNode::Constant(n) => n@,
            LazNode::ReadFile(n) => n@,
            LazNode::Sum(n) => n@,
        }
    }
}

impl LazNode {
    /// The upstream outputs this node depends on, one per input slot, in
    /// slot order.
    pub fn inputs(&self) -> (r: Vec<OutputID>)
        ensures
            r@ == node_input_refs(self@),
    {
        match self {
            LazNode::Constant(n) => n.inputs(),
            LazNode::ReadFile(n) => n.inputs(),
            LazNode::Sum(n) => n.inputs(),
        }
    }

    /// Slot labels; the counts match the actual input slots and the single
    /// output every kind produces.
    pub fn io_description(&self) -> (r: IODescription)
        ensures
            r.inputs@.len() == node_input_refs(self@).len(),
            r.outputs@.len() == 1,
    {
        match self {
            LazNode::Constant(n) => n.io_description(),
            LazNode::ReadFile(n) => n.io_description(),
            LazNode::Sum(n) => n.io_description(),
        }
    }

    /// Re-wires the input slot `slot` to `target`, for graph editing; says
    /// whether the node has such a slot. Never consulted by evaluation.
    pub fn set_input(&mut self, slot: usize, target: OutputID) -> (ok: bool)
        ensures
            ok == (slot < node_input_refs(old(self)@).len()),
            final(self)@ == node_rewired(old(self)@, slot as int, target),
    {
        match self {
            LazNode::Constant(_) => false,
            LazNode::ReadFile(n) => {
                if slot == 0 {
                    n.file_name = target;
                    true
                } else {
                    false
                }
            },
            LazNode::Sum(n) => {
                if slot == 0 {
                    n.input_list = target;
                    true
                } else {
                    false
                }
            },
        }
    }

    /// One compute step: given the resolved value of each input slot in slot
    /// order, produce the output values or stop, exactly as [`node_eval`]
    /// states. Side effects never reach other nodes.
    pub fn evaluate_for(&self, self_id: ID, inputs: Vec<(OutputID, LazValue)>) -> (r: Result<
        Vec<LazValue>,
        EvalStop,
    >)
        requires
            inputs@.len() == node_input_refs(self@).len(),
        ensures
            outcome_model(r) == node_eval(self@, self_id, pairs_model(inputs@)),
    {
        match self {
            LazNode::Constant(n) => n.evaluate_for(self_id, inputs),
            LazNode::ReadFile(n) => n.evaluate_for(self_id, inputs),
            LazNode::Sum(n) => n.evaluate_for(self_id, inputs),
        }
    }
}

} // verus!
