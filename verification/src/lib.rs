//! A small demand-driven node-graph evaluation engine.
//!
//! Computations are expressed as a directed graph of typed nodes connected by
//! output-to-input edges. An environment owns every node by identifier and
//! evaluates a chosen root node recursively: each upstream dependency is
//! resolved bottom-up before the node's own compute step runs.
//!
//! The engine itself performs no I/O. A node that needs file contents reports
//! a [`nodes::EvalStop::NeedFile`] request; the host reads the file and hands
//! the bytes back through [`env::LazEnv::supply_file`], then evaluates again.

pub mod env;
pub mod nodes;
pub mod types;

use vstd::prelude::*;

use crate::env::{env_acyclic, env_ranked, LazEnv};
use crate::nodes::{ConstantNode, LazNode, NodeModel, OutputID, ReadFileNode, SumNode, ID};
use crate::types::{LazValue, ValueModel};

verus! {

/// A ready-made three-node pipeline: a constant path, a file reader wired to
/// it, and a summation of the file's bytes. Returns the environment and the
/// identifier of the summation node, the root to evaluate.
pub fn example_env() -> (r: (LazEnv, ID))
    ensures
        r.0.wf(),
        env_acyclic(r.0@.nodes),
        r.0@.nodes.len() == 3,
        r.0@.nodes[0] == (NodeModel::Constant {
            value: ValueModel::String("src/render/shaders/compiled/data.frag.spv"@),
        }),
        r.0@.nodes[1] == (NodeModel::ReadFile {
            input: OutputID { node: ID(0), outport: 0 },
            cache: None,
        }),
        r.0@.nodes[2] == (NodeModel::Sum { input: OutputID { node: ID(1), outport: 0 } }),
        r.1 == ID(2),
{
    let mut env = LazEnv::default();

    let path = ConstantNode {
        value: LazValue::String("src/render/shaders/compiled/data.frag.spv".to_owned()),
    };
    let path_id = env.add_node(LazNode::Constant(path));

    let read_file = ReadFileNode::new(OutputID { node: path_id, outport: 0 });
    let read_file_id = env.add_node(LazNode::ReadFile(read_file));

    let sum = SumNode { input_list: OutputID { node: read_file_id, outport: 0 } };
    let sum_id = env.add_node(LazNode::Sum(sum));

    proof {
        let ns = env@.nodes;
        let rk = map![0int => 0nat, 1int => 1nat, 2int => 2nat];
        assert(env_ranked(ns, rk));
        assert(env_acyclic(ns));
    }
    (env, sum_id)
}

} // verus!
