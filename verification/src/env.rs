//! The graph environment: the owning registry of all nodes, identifier
//! allocation, and the recursive evaluation algorithm.

use vstd::prelude::*;

use crate::nodes::{
    node_eval, node_input_refs, outcome_model, pairs_model, ErrorModel, EvalStop, InputID,
    LazError, LazNode, NodeModel, OutputID, StopModel, ID,
};
use crate::types::{seq_deep_view, LazValue, ValueModel};

verus! {

/// The mathematical shape of an environment: the model of each registered
/// node, indexed by its identifier, and the next identifier to mint.
#[verifier::ext_equal]
pub struct EnvModel {
    pub nodes: Seq<NodeModel>,
    pub next_id: u64,
}

/// The upstream output that input slot `j` of node `i` is wired to.
pub open spec fn input_ref(nodes: Seq<NodeModel>, i: int, j: int) -> OutputID {
    node_input_refs(nodes[i])[j]
}

/// `rk` orders the graph: every edge to a registered node strictly lowers
/// the rank.
pub open spec fn env_ranked(nodes: Seq<NodeModel>, rk: Map<int, nat>) -> bool {
    forall|i: int, j: int|
        0 <= i < nodes.len() && 0 <= j < node_input_refs(nodes[i]).len() && (#[trigger] input_ref(
            nodes,
            i,
            j,
        )).node.0 < nodes.len() ==> rk[input_ref(nodes, i, j).node.0 as int] < rk[i]
}

/// The graph has no cycle among registered nodes: some rank map orders its
/// edges. Evaluation requires this; on a cyclic graph demand-driven
/// recursion could not terminate, and avoiding cycles is the caller's
/// responsibility.
pub open spec fn env_acyclic(nodes: Seq<NodeModel>) -> bool {
    exists|rk: Map<int, nat>| env_ranked(nodes, rk)
}

/// The rank of node `i` under the witness order of [`env_acyclic`].
pub open spec fn node_rank(nodes: Seq<NodeModel>, i: int) -> nat {
    (choose|rk: Map<int, nat>| env_ranked(nodes, rk))[i]
}

/// What evaluating node `id` on the graph `nodes` yields: demand-driven and
/// depth-first — every input slot is resolved bottom-up, in slot order, and
/// the node's own compute step runs on the resolved values. The first stop
/// encountered short-circuits the whole evaluation; there are no partial
/// results and no memoization.
pub open spec fn eval(nodes: Seq<NodeModel>, id: ID) -> Result<Seq<ValueModel>, StopModel>
    decreases node_rank(nodes, id.0 as int), 1int, 0int,
        when env_acyclic(nodes)
{
    if id.0 >= nodes.len() {
        Err(StopModel::Failed(ErrorModel::NoSuchNode(id)))
    } else {
        match eval_inputs(nodes, id, node_input_refs(nodes[id.0 as int]).len() as int) {
            Ok(pairs) => node_eval(nodes[id.0 as int], id, pairs),
            Err(stop) => Err(stop),
        }
    }
}

/// The resolved values of the first `k` input slots of node `id`, each paired
/// with the upstream output that produced it: slot `j` is the output at port
/// `input_ref(nodes, id, j).outport` of evaluating node
/// `input_ref(nodes, id, j).node`. An edge to an unregistered node stops with
/// `NoSuchNode`; a port beyond the upstream node's outputs stops with
/// `NoSuchOutport`.
pub open spec fn eval_inputs(nodes: Seq<NodeModel>, id: ID, k: int) -> Result<
    Seq<(OutputID, ValueModel)>,
    StopModel,
>
    decreases node_rank(nodes, id.0 as int), 0int, k,
        when env_acyclic(nodes) && id.0 < nodes.len() && 0 <= k <= node_input_refs(
            nodes[id.0 as int],
        ).len()
{
    if k <= 0 {
        Ok(Seq::empty())
    } else {
        match eval_inputs(nodes, id, k - 1) {
            Err(stop) => Err(stop),
            Ok(pairs) => {
                let r = input_ref(nodes, id.0 as int, k - 1);
                if r.node.0 >= nodes.len() {
                    Err(StopModel::Failed(ErrorModel::NoSuchNode(r.node)))
                } else {
                    proof {
                        let rk = choose|rk: Map<int, nat>| env_ranked(nodes, rk);
                        assert(env_ranked(nodes, rk));
                        assert(rk[r.node.0 as int] < rk[id.0 as int]);
                    }
                    match eval(nodes, r.node) {
                        Err(stop) => Err(stop),
                        Ok(outs) => if r.outport >= outs.len() {
                            Err(StopModel::Failed(ErrorModel::NoSuchOutport(r)))
                        } else {
                            Ok(pairs.push((r, outs[r.outport as int])))
                        },
                    }
                }
            },
        }
    }
}

/// A stop while resolving an input slot short-circuits every later slot:
/// the first stop encountered is the one the whole resolution reports.
pub proof fn lemma_inputs_stop_propagates(
    nodes: Seq<NodeModel>,
    id: ID,
    k: int,
    m: int,
    stop: StopModel,
)
    requires
        env_acyclic(nodes),
        id.0 < nodes.len(),
        0 <= k <= m <= node_input_refs(nodes[id.0 as int]).len(),
        eval_inputs(nodes, id, k) == Err::<Seq<(OutputID, ValueModel)>, StopModel>(stop),
    ensures
        eval_inputs(nodes, id, m) == Err::<Seq<(OutputID, ValueModel)>, StopModel>(stop),
    decreases m - k,
{
    if m > k {
        lemma_inputs_stop_propagates(nodes, id, k, m - 1, stop);
    }
}

/// Law: a constant node always evaluates to exactly its stored value — on
/// every call, since the result is a function of the environment model
/// alone and evaluation never changes the environment.
pub proof fn lemma_constant_eval(nodes: Seq<NodeModel>, id: ID, v: ValueModel)
    requires
        env_acyclic(nodes),
        id.0 < nodes.len(),
        nodes[id.0 as int] == (NodeModel::Constant { value: v }),
    ensures
        eval(nodes, id) == Ok::<Seq<ValueModel>, StopModel>(Seq::empty().push(v)),
{
}

/// Law: with a warm cache for the path its input resolves to, a file-reading
/// node evaluates entirely from the cache — the result is the cached bytes
/// as an array, and no file request is made.
pub proof fn lemma_read_file_cached(
    nodes: Seq<NodeModel>,
    id: ID,
    input: OutputID,
    path: Seq<char>,
    bytes: Seq<u8>,
)
    requires
        env_acyclic(nodes),
        id.0 < nodes.len(),
        nodes[id.0 as int] == (NodeModel::ReadFile { input, cache: Some((path, bytes)) }),
        input.node.0 < nodes.len(),
        eval(nodes, input.node) matches Ok(outs) && input.outport < outs.len() && outs[
            input.outport as int
        ] == ValueModel::String(path),
    ensures
        eval(nodes, id) == Ok::<Seq<ValueModel>, StopModel>(
            Seq::empty().push(ValueModel::Array(crate::nodes::byte_models(bytes))),
        ),
{
    assert(eval_inputs(nodes, id, 0) == Ok::<Seq<(OutputID, ValueModel)>, StopModel>(Seq::empty()));
    let pairs = Seq::empty().push((input, ValueModel::String(path)));
    assert(eval_inputs(nodes, id, 1) == Ok::<Seq<(OutputID, ValueModel)>, StopModel>(pairs));
    assert(node_eval(nodes[id.0 as int], id, pairs) == Ok::<Seq<ValueModel>, StopModel>(
        Seq::empty().push(ValueModel::Array(crate::nodes::byte_models(bytes))),
    ));
}

/// Law: evaluation reports `NoSuchNode(x)` only for an unregistered `x`, and
/// always does so when the requested root itself is unregistered.
pub proof fn lemma_no_such_node(nodes: Seq<NodeModel>, id: ID)
    requires
        env_acyclic(nodes),
    ensures
        id.0 >= nodes.len() ==> eval(nodes, id) == Err::<Seq<ValueModel>, StopModel>(
            StopModel::Failed(ErrorModel::NoSuchNode(id)),
        ),
        eval(nodes, id) matches Err(StopModel::Failed(ErrorModel::NoSuchNode(x))) ==> x.0
            >= nodes.len(),
    decreases node_rank(nodes, id.0 as int), 1int, 0int,
{
    if id.0 < nodes.len() {
        lemma_no_such_node_inputs(nodes, id, node_input_refs(nodes[id.0 as int]).len() as int);
    }
}

/// Helper for [`lemma_no_such_node`]: resolving input slots reports
/// `NoSuchNode(x)` only for an unregistered `x`.
proof fn lemma_no_such_node_inputs(nodes: Seq<NodeModel>, id: ID, k: int)
    requires
        env_acyclic(nodes),
        id.0 < nodes.len(),
        0 <= k <= node_input_refs(nodes[id.0 as int]).len(),
    ensures
        eval_inputs(nodes, id, k) matches Err(StopModel::Failed(ErrorModel::NoSuchNode(x))) ==> x.0
            >= nodes.len(),
    decreases node_rank(nodes, id.0 as int), 0int, k,
{
    if k > 0 {
        lemma_no_such_node_inputs(nodes, id, k - 1);
        if eval_inputs(nodes, id, k - 1) is Ok {
            let r = input_ref(nodes, id.0 as int, k - 1);
            if r.node.0 < nodes.len() {
                let rk = choose|rk: Map<int, nat>| env_ranked(nodes, rk);
                assert(env_ranked(nodes, rk));
                assert(rk[r.node.0 as int] < rk[id.0 as int]);
                lemma_no_such_node(nodes, r.node);
            }
        }
    }
}

/// Law: when the first `k` input slots resolve, the target of slot `k`
/// exists and evaluates successfully, but the requested port is beyond its
/// outputs, evaluating the node fails with `NoSuchOutport` naming that edge.
pub proof fn lemma_no_such_outport(nodes: Seq<NodeModel>, id: ID, k: int)
    requires
        env_acyclic(nodes),
        id.0 < nodes.len(),
        0 <= k < node_input_refs(nodes[id.0 as int]).len(),
        eval_inputs(nodes, id, k) is Ok,
        input_ref(nodes, id.0 as int, k).node.0 < nodes.len(),
        eval(nodes, input_ref(nodes, id.0 as int, k).node) matches Ok(outs) && outs.len()
            <= input_ref(nodes, id.0 as int, k).outport,
    ensures
        eval(nodes, id) == Err::<Seq<ValueModel>, StopModel>(
            StopModel::Failed(ErrorModel::NoSuchOutport(input_ref(nodes, id.0 as int, k))),
        ),
{
    let stop = StopModel::Failed(ErrorModel::NoSuchOutport(input_ref(nodes, id.0 as int, k)));
    assert(eval_inputs(nodes, id, k + 1) == Err::<Seq<(OutputID, ValueModel)>, StopModel>(stop));
    lemma_inputs_stop_propagates(
        nodes,
        id,
        k + 1,
        node_input_refs(nodes[id.0 as int]).len() as int,
        stop,
    );
}

/// Law: evaluation is compositional — a node's result is its own compute
/// step applied to the resolved input values, whenever those resolve.
pub proof fn lemma_eval_compositional(nodes: Seq<NodeModel>, id: ID)
    requires
        env_acyclic(nodes),
        id.0 < nodes.len(),
        eval_inputs(nodes, id, node_input_refs(nodes[id.0 as int]).len() as int) is Ok,
    ensures
        eval(nodes, id) == node_eval(
            nodes[id.0 as int],
            id,
            eval_inputs(nodes, id, node_input_refs(nodes[id.0 as int]).len() as int)->Ok_0,
        ),
{
}

/// Law: there is no shared-state leakage between the recursive paths of one
/// evaluation — the value handed to each resolved input slot equals the
/// result of independently evaluating that upstream node on the same
/// environment, whichever other slots or nodes were resolved before it.
pub proof fn lemma_inputs_independent(nodes: Seq<NodeModel>, id: ID, k: int, j: int)
    requires
        env_acyclic(nodes),
        id.0 < nodes.len(),
        0 <= k <= node_input_refs(nodes[id.0 as int]).len(),
        eval_inputs(nodes, id, k) is Ok,
        0 <= j < k,
    ensures
        eval_inputs(nodes, id, k)->Ok_0.len() == k,
        eval_inputs(nodes, id, k)->Ok_0[j].0 == input_ref(nodes, id.0 as int, j),
        eval(nodes, input_ref(nodes, id.0 as int, j).node) matches Ok(outs) && input_ref(
            nodes,
            id.0 as int,
            j,
        ).outport < outs.len() && outs[input_ref(nodes, id.0 as int, j).outport as int]
            == eval_inputs(nodes, id, k)->Ok_0[j].1,
    decreases k,
{
    lemma_inputs_len(nodes, id, k);
    lemma_inputs_len(nodes, id, k - 1);
    if j + 1 < k {
        lemma_inputs_independent(nodes, id, k - 1, j);
    }
}

/// Helper for [`lemma_inputs_independent`]: a successful resolution of the
/// first `k` input slots yields exactly `k` pairs.
proof fn lemma_inputs_len(nodes: Seq<NodeModel>, id: ID, k: int)
    requires
        env_acyclic(nodes),
        id.0 < nodes.len(),
        0 <= k <= node_input_refs(nodes[id.0 as int]).len(),
        eval_inputs(nodes, id, k) is Ok,
    ensures
        eval_inputs(nodes, id, k)->Ok_0.len() == k,
    decreases k,
{
    if k > 0 {
        lemma_inputs_len(nodes, id, k - 1);
    }
}

/// The model and identifier that registering `n` in `m` yields.
pub open spec fn env_add(m: EnvModel, n: NodeModel) -> (EnvModel, ID) {
    (EnvModel { nodes: m.nodes.push(n), next_id: (m.next_id + 1) as u64 }, ID(m.next_id))
}

/// Law: identifier allocation is monotonic — in a well-formed environment
/// every identifier in use lies strictly below the counter, and two
/// successive registrations mint strictly increasing, distinct identifiers
/// while keeping the environment well formed.
pub proof fn lemma_increasing_identifiers(m: EnvModel, a: NodeModel, b: NodeModel)
    requires
        m.next_id == m.nodes.len(),
        m.nodes.len() + 1 < u64::MAX,
    ensures
        forall|id: ID| id.0 < m.nodes.len() ==> id.0 < m.next_id,
        env_add(m, a).0.next_id == env_add(m, a).0.nodes.len(),
        env_add(m, a).1.0 < env_add(env_add(m, a).0, b).1.0,
{
}

/// The owning registry of all nodes plus the evaluation algorithm.
///
/// Every registered node is owned exclusively by the environment; no node
/// reaches another node directly — all cross-node access goes through the
/// environment's lookup. Nodes are stored in an arena indexed by the integer
/// value of their identifier, which is also what enforces the monotonic
/// allocation invariant.
pub struct LazEnv {
    nodes: Vec<LazNode>,
    /// Output-to-input connection bookkeeping for a future graph editor;
    /// mirrors the inputs declared on the nodes and is never consulted by
    /// evaluation.
    connections: Vec<(OutputID, InputID)>,
    smallest_unused_id: ID,
    /// The node a future editor has selected; inert state, never consulted
    /// by evaluation.
    selected: Option<ID>,
}

impl View for LazEnv {
    type V = EnvModel;

    closed spec fn view(&self) -> EnvModel {
        EnvModel {
            nodes: Seq::new(self.nodes@.len(), |i: int| self.nodes@[i]@),
            next_id: self.smallest_unused_id.0,
        }
    }
}

impl Default for LazEnv {
    /// An empty environment: no nodes, the identifier counter at zero.
    fn default() -> (r: LazEnv)
        ensures
            r@ == (EnvModel { nodes: Seq::empty(), next_id: 0 }),
            r.wf(),
    {
        let r = LazEnv {
            nodes: Vec::new(),
            connections: Vec::new(),
            smallest_unused_id: ID(0),
            selected: None,
        };
        proof {
            assert(r@ =~= EnvModel { nodes: Seq::empty(), next_id: 0 });
        }
        r
    }
}

impl LazEnv {
    /// The allocation invariant: the counter of the next identifier to mint
    /// is greater than every identifier in use — in the arena, exactly the
    /// number of registered nodes.
    pub open spec fn wf(self) -> bool {
        self@.next_id == self@.nodes.len()
    }

    /// Registers `node`, transferring ownership to the environment, and
    /// returns the freshly minted identifier: the smallest unused one. This
    /// is the sole way identifiers are minted, and the counter moves past
    /// each one forever — identifiers are never reused.
    pub fn add_node(&mut self, node: LazNode) -> (id: ID)
        requires
            old(self).wf(),
            old(self)@.nodes.len() < u64::MAX,
        ensures
            final(self).wf(),
            final(self)@ == env_add(old(self)@, node@).0,
            id == env_add(old(self)@, node@).1,
            id.0 == old(self)@.nodes.len(),
    {
        let id = self.smallest_unused_id;
        self.nodes.push(node);
        self.smallest_unused_id = ID(self.smallest_unused_id.0 + 1);
        proof {
            assert(self@.nodes =~= env_add(old(self)@, node@).0.nodes);
        }
        id
    }

    /// The node registered under `id`, if any.
    pub fn get_node(&self, id: ID) -> (r: Option<&LazNode>)
        ensures
            match r {
                Some(n) => id.0 < self@.nodes.len() && n@ == self@.nodes[id.0 as int],
                None => id.0 >= self@.nodes.len(),
            },
    {
        if id.0 < self.nodes.len() as u64 {
            Some(&self.nodes[id.0 as usize])
        } else {
            None
        }
    }


    /// Evaluates node `id` and returns its output values, or the stop that
    /// short-circuited the evaluation, exactly as [`eval`] states: the first
    /// stop met during the depth-first resolution of the node's inputs, or
    /// during the node's own compute step, propagates unchanged.
    ///
    /// Evaluation is purely demand-driven: every call recomputes the whole
    /// subgraph (no memoization, so a diamond-shaped graph recomputes a
    /// shared ancestor once per path into it), and the environment is never
    /// changed — the result is a function of the environment model alone.
    ///
    /// The graph must be acyclic: on a cycle the recursion would not
    /// terminate, and avoiding cycles is the caller's responsibility.
    pub fn evaluate_node(&self, id: ID) -> (r: Result<Vec<LazValue>, EvalStop>)
        requires
            env_acyclic(self@.nodes),
        ensures
            outcome_model(r) == eval(self@.nodes, id),
        decreases node_rank(self@.nodes, id.0 as int),
    {
        let ghost nodes = self@.nodes;
        let n = self.nodes.len();
        if id.0 >= n as u64 {
            return Err(EvalStop::Failed(LazError::NoSuchNode(id)));
        }
        let idx = id.0 as usize;
        let node_ref = &self.nodes[idx];
        let input_refs = node_ref.inputs();
        let num = input_refs.len();
        let mut values: Vec<(OutputID, LazValue)> = Vec::new();
        proof {
            assert(pairs_model(values@) =~= Seq::empty());
        }
        let mut k: usize = 0;
        while k < num
            invariant
                env_acyclic(nodes),
                nodes == self@.nodes,
                n == nodes.len(),
                id.0 < nodes.len(),
                idx == id.0 as usize,
                input_refs@ == node_input_refs(nodes[id.0 as int]),
                num == input_refs@.len(),
                k <= num,
                values@.len() == k,
                eval_inputs(nodes, id, k as int) == Ok::<_, StopModel>(pairs_model(values@)),
            decreases num - k,
        {
            let r = input_refs[k];
            if r.node.0 >= n as u64 {
                let stop = EvalStop::Failed(LazError::NoSuchNode(r.node));
                proof {
                    assert(eval_inputs(nodes, id, k + 1 as int) == Err::<
                        Seq<(OutputID, ValueModel)>,
                        StopModel,
                    >(stop@));
                    lemma_inputs_stop_propagates(nodes, id, k + 1 as int, num as int, stop@);
                }
                return Err(stop);
            }
            proof {
                let rk = choose|rk: Map<int, nat>| env_ranked(nodes, rk);
                assert(env_ranked(nodes, rk));
                assert(input_ref(nodes, id.0 as int, k as int) == r);
                assert(rk[r.node.0 as int] < rk[id.0 as int]);
            }
            match self.evaluate_node(r.node) {
                Err(stop) => {
                    proof {
                        assert(eval_inputs(nodes, id, k + 1 as int) == Err::<
                            Seq<(OutputID, ValueModel)>,
                            StopModel,
                        >(stop@));
                        lemma_inputs_stop_propagates(nodes, id, k + 1 as int, num as int, stop@);
                    }
                    return Err(stop);
                },
                Ok(mut outs) => {
                    proof {
                        broadcast use crate::types::lemma_seq_deep_view;

                    }
                    if r.outport >= outs.len() {
                        let stop = EvalStop::Failed(LazError::NoSuchOutport(r));
                        proof {
                            assert(eval_inputs(nodes, id, k + 1 as int) == Err::<
                                Seq<(OutputID, ValueModel)>,
                                StopModel,
                            >(stop@));
                            lemma_inputs_stop_propagates(nodes, id, k + 1 as int, num as int, stop@);
                        }
                        return Err(stop);
                    }
                    let ghost outs_view = outs@;
                    let v = outs.remove(r.outport);
                    let ghost prev = values@;
                    values.push((r, v));
                    proof {
                        broadcast use crate::types::lemma_seq_deep_view;

                        assert(v.deep_view() == seq_deep_view(outs_view)[r.outport as int]);
                        assert(pairs_model(values@) =~= pairs_model(prev).push((r, v.deep_view())));
                        assert(eval_inputs(nodes, id, k + 1 as int) == Ok::<_, StopModel>(
                            pairs_model(values@),
                        ));
                    }
                },
            }
            k = k + 1;
        }
        let result = node_ref.evaluate_for(id, values);
        proof {
            assert(eval(nodes, id) == node_eval(nodes[id.0 as int], id, pairs_model(values@)));
        }
        result
    }


    /// The node registered under `id`, if any, mutably, so a graph editor
    /// can re-wire or replace it. Nothing else in the environment changes.
    pub fn get_node_mut(&mut self, id: ID) -> (r: Option<&mut LazNode>)
        ensures
            (r matches Some(n) ==> id.0 < old(self)@.nodes.len()
                && (*n)@ == old(self)@.nodes[id.0 as int]
                && final(self)@.nodes.len() == old(self)@.nodes.len()
                && final(self)@.nodes[id.0 as int] == (*final(n))@
                && (forall|j: int|
                    0 <= j < old(self)@.nodes.len() && j != id.0 as int
                        ==> final(self)@.nodes[j] == old(self)@.nodes[j])
                && final(self)@.next_id == old(self)@.next_id),
            (r is None ==> id.0 >= old(self)@.nodes.len() && final(self)@ == old(self)@),
    {
        if id.0 < self.nodes.len() as u64 {
            Some(&mut self.nodes[id.0 as usize])
        } else {
            None
        }
    }

    /// Stores file contents into the file-reading node `id`: the host's
    /// answer to an [`EvalStop::NeedFile`] stop. Returns whether `id` names
    /// a file-reading node; nothing else in the environment changes.
    pub fn supply_file(&mut self, id: ID, path: String, contents: Vec<u8>) -> (ok: bool)
        ensures
            ok == (id.0 < old(self)@.nodes.len() && old(self)@.nodes[id.0 as int] is ReadFile),
            ok ==> final(self)@.nodes == old(self)@.nodes.update(
                id.0 as int,
                NodeModel::ReadFile {
                    input: old(self)@.nodes[id.0 as int]->ReadFile_input,
                    cache: Some((path@, contents@)),
                },
            ),
            !ok ==> final(self)@ == old(self)@,
            final(self)@.next_id == old(self)@.next_id,
    {
        if id.0 < self.nodes.len() as u64 {
            match &mut self.nodes[id.0 as usize] {
                LazNode::ReadFile(n) => {
                    proof {
                        broadcast use crate::nodes::lemma_read_file_node_view;

                        assert(old(self)@.nodes[id.0 as int] is ReadFile);
                    }
                    n.supply_contents(path, contents);
                    proof {
                        assert(self@.nodes =~= old(self)@.nodes.update(
                            id.0 as int,
                            NodeModel::ReadFile {
                                input: old(self)@.nodes[id.0 as int]->ReadFile_input,
                                cache: Some((path@, contents@)),
                            },
                        ));
                    }
                    true
                },
                _ => {
                    proof {
                        assert(self@ =~= old(self)@);
                        assert(!(old(self)@.nodes[id.0 as int] is ReadFile));
                    }
                    false
                },
            }
        } else {
            false
        }
    }
}

} // verus!
