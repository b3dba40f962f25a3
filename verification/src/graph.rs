//! The graph compiler: walks a prepared tree, assigns stable identities to
//! constants, controls and operation nodes, deduplicates structurally equal
//! nodes, and resolves every input to a port reference.
//!
//! The graph is threaded functionally: each insertion returns a new graph
//! extending the previous one at the front of the matching table; `next_id`
//! only increases, and a node once appended is never changed.

use vstd::prelude::*;

use crate::numbits::spec_f32_eq;
use crate::numbits::f32_bits_eq;
use crate::numbits::spec_f32_bits_of_i32;
use crate::numbits::f32_bits_of_i32;
use crate::sc3::Rate;
use crate::sc3::spec_rate_id;
use crate::sc3::rate_id;
use crate::sc3::Ugen;
use crate::sc3::UgenV;
use crate::sc3::UgenList;
use crate::sc3::RateList;
use crate::sc3::Primitive;
use crate::sc3::PrimitiveV;
use crate::sc3::FromPortC;
use crate::sc3::FromPortK;
use crate::sc3::FromPortU;
use crate::sc3::Mrg;
use crate::sc3::view_ugen;
use crate::sc3::view_ugens;
use crate::sc3::lemma_view_ugens_prefix;
use crate::sc3::ugens_eq;
use crate::sc3::ugen_eq;
use crate::sc3::compare_ugen_list;
use crate::sc3::dup_ugen_list;
use crate::sc3::dup_rates;

verus! {

/// A compiled constant: the id and the value as an IEEE-754 bit pattern
/// (integer constants are promoted to float on compilation).
#[derive(Clone, Debug)]
pub struct NodeC {
    pub id: i32,
    pub bits: u32,
}

/// A compiled control: id, name, rate, and the default taken from the
/// control's declared index.
#[derive(Debug)]
pub struct NodeK {
    pub id: i32,
    pub name: String,
    pub rate: Rate,
    pub def: i32,
}

/// A compiled operation node; its inputs are resolved port references.
#[derive(Debug)]
pub struct NodeU {
    pub id: i32,
    pub name: String,
    pub rate: Rate,
    pub inputs: UgenList,
    pub outputs: RateList,
    pub special: i32,
    pub ugen_id: i32,
}

/// The resolved form of a proxy: a fresh node pointing at one output port
/// of an operation node.
#[derive(Debug)]
pub struct NodeP {
    pub id: i32,
    pub node: Box<Node>,
    pub p_idx: i32,
}

/// A compiled node of any category.
#[derive(Debug)]
pub enum Node {
    NodeC(NodeC),
    NodeK(NodeK),
    NodeU(NodeU),
    NodeP(NodeP),
}

/// The accumulating compiled graph.
#[derive(Debug)]
pub struct Graph {
    pub next_id: i32,
    pub constants: Vec<NodeC>,
    pub controls: Vec<NodeK>,
    pub ugens: Vec<NodeU>,
}

/// The view of a compiled constant.
pub struct NodeCV {
    pub id: int,
    pub bits: u32,
}

/// The view of a compiled control.
pub struct NodeKV {
    pub id: int,
    pub name: Seq<char>,
    pub rate: Rate,
    pub def: int,
}

/// The view of a compiled operation node.
pub struct NodeUV {
    pub id: int,
    pub name: Seq<char>,
    pub rate: Rate,
    pub inputs: Seq<UgenV>,
    pub outputs: Seq<Rate>,
    pub special: int,
    pub ugen_id: int,
}

/// The view of a compiled node.
pub enum NodeV {
    NodeC(NodeCV),
    NodeK(NodeKV),
    NodeU(NodeUV),
    NodeP { id: int, node: Box<NodeV>, p_idx: int },
}

/// The view of the accumulating graph.
pub struct GraphV {
    pub next_id: int,
    pub constants: Seq<NodeCV>,
    pub controls: Seq<NodeKV>,
    pub ugens: Seq<NodeUV>,
}

impl View for NodeC {
    type V = NodeCV;

    open spec fn view(&self) -> NodeCV {
        NodeCV { id: self.id as int, bits: self.bits }
    }
}

impl View for NodeK {
    type V = NodeKV;

    open spec fn view(&self) -> NodeKV {
        NodeKV { id: self.id as int, name: self.name@, rate: self.rate, def: self.def as int }
    }
}

impl View for NodeU {
    type V = NodeUV;

    open spec fn view(&self) -> NodeUV {
        NodeUV {
            id: self.id as int,
            name: self.name@,
            rate: self.rate,
            inputs: view_ugens(self.inputs),
            outputs: self.outputs@,
            special: self.special as int,
            ugen_id: self.ugen_id as int,
        }
    }
}

/// The view of a node.
pub open spec fn view_node(n: Node) -> NodeV
    decreases n,
{
    match n {
        Node::NodeC(c) => NodeV::NodeC(c@),
        Node::NodeK(k) => NodeV::NodeK(k@),
        Node::NodeU(u) => NodeV::NodeU(u@),
        Node::NodeP(p) => NodeV::NodeP {
            id: p.id as int,
            node: Box::new(view_node(*p.node)),
            p_idx: p.p_idx as int,
        },
    }
}

impl View for Node {
    type V = NodeV;

    open spec fn view(&self) -> NodeV {
        view_node(*self)
    }
}

/// The views of the first `n` constants of a table.
pub open spec fn view_nodecs_prefix(l: Vec<NodeC>, n: int) -> Seq<NodeCV>
    decreases n,
{
    if n <= 0 || n > l.len() {
        Seq::empty()
    } else {
        view_nodecs_prefix(l, n - 1).push(l[n - 1]@)
    }
}

/// The views of the first `n` controls of a table.
pub open spec fn view_nodeks_prefix(l: Vec<NodeK>, n: int) -> Seq<NodeKV>
    decreases n,
{
    if n <= 0 || n > l.len() {
        Seq::empty()
    } else {
        view_nodeks_prefix(l, n - 1).push(l[n - 1]@)
    }
}

/// The views of the first `n` operation nodes of a table.
pub open spec fn view_nodeus_prefix(l: Vec<NodeU>, n: int) -> Seq<NodeUV>
    decreases n,
{
    if n <= 0 || n > l.len() {
        Seq::empty()
    } else {
        view_nodeus_prefix(l, n - 1).push(l[n - 1]@)
    }
}

pub proof fn lemma_view_nodecs_prefix(l: Vec<NodeC>, n: int)
    requires
        0 <= n <= l.len(),
    ensures
        view_nodecs_prefix(l, n).len() == n,
        forall|i: int| 0 <= i < n ==> view_nodecs_prefix(l, n)[i] == l[i]@,
    decreases n,
{
    if n > 0 {
        lemma_view_nodecs_prefix(l, n - 1);
    }
}

pub proof fn lemma_view_nodeks_prefix(l: Vec<NodeK>, n: int)
    requires
        0 <= n <= l.len(),
    ensures
        view_nodeks_prefix(l, n).len() == n,
        forall|i: int| 0 <= i < n ==> view_nodeks_prefix(l, n)[i] == l[i]@,
    decreases n,
{
    if n > 0 {
        lemma_view_nodeks_prefix(l, n - 1);
    }
}

pub proof fn lemma_view_nodeus_prefix(l: Vec<NodeU>, n: int)
    requires
        0 <= n <= l.len(),
    ensures
        view_nodeus_prefix(l, n).len() == n,
        forall|i: int| 0 <= i < n ==> view_nodeus_prefix(l, n)[i] == l[i]@,
    decreases n,
{
    if n > 0 {
        lemma_view_nodeus_prefix(l, n - 1);
    }
}

impl View for Graph {
    type V = GraphV;

    open spec fn view(&self) -> GraphV {
        GraphV {
            next_id: self.next_id as int,
            constants: view_nodecs_prefix(self.constants, self.constants.len() as int),
            controls: view_nodeks_prefix(self.controls, self.controls.len() as int),
            ugens: view_nodeus_prefix(self.ugens, self.ugens.len() as int),
        }
    }
}

/// The id recorded in a node.
pub open spec fn spec_node_id(n: NodeV) -> int {
    match n {
        NodeV::NodeC(c) => c.id,
        NodeV::NodeK(k) => k.id,
        NodeV::NodeU(u) => u.id,
        NodeV::NodeP { id, .. } => id,
    }
}

/// The port reference a compiled node is read through: constants and
/// controls by id, an operation node at port zero, a proxy node at its
/// recorded port of the node it wraps.
pub open spec fn spec_as_from_port(n: NodeV) -> UgenV {
    match n {
        NodeV::NodeC(c) => UgenV::FromPortC { nid: c.id },
        NodeV::NodeK(k) => UgenV::FromPortK { nid: k.id },
        NodeV::NodeU(u) => UgenV::FromPortU { nid: u.id, pidx: 0 },
        NodeV::NodeP { id, node, p_idx } => UgenV::FromPortU {
            nid: spec_node_id(*node),
            pidx: p_idx,
        },
    }
}

/// The index of the first constant equal, as an IEEE-754 value, to `bits`;
/// `-1` when there is none.
pub open spec fn spec_find_c(cs: Seq<NodeCV>, bits: u32) -> int
    decreases cs.len(),
{
    if cs.len() == 0 {
        -1
    } else if spec_f32_eq(bits, cs[0].bits) {
        0
    } else {
        let r = spec_find_c(cs.drop_first(), bits);
        if r < 0 {
            -1
        } else {
            r + 1
        }
    }
}

/// What `spec_find_c` returns: the first matching index, or `-1` when no
/// constant matches.
pub proof fn lemma_find_c(cs: Seq<NodeCV>, bits: u32)
    ensures
        spec_find_c(cs, bits) == -1 ==> forall|i: int|
            0 <= i < cs.len() ==> !spec_f32_eq(bits, (#[trigger] cs[i]).bits),
        spec_find_c(cs, bits) != -1 ==> {
            let r = spec_find_c(cs, bits);
            &&& 0 <= r < cs.len()
            &&& spec_f32_eq(bits, cs[r].bits)
            &&& forall|i: int| 0 <= i < r ==> !spec_f32_eq(bits, (#[trigger] cs[i]).bits)
        },
    decreases cs.len(),
{
    if cs.len() > 0 && !spec_f32_eq(bits, cs[0].bits) {
        lemma_find_c(cs.drop_first(), bits);
        assert(forall|i: int|
            1 <= i < cs.len() ==> #[trigger] cs[i] == cs.drop_first()[i - 1]);
    }
}

/// The index of the first control with the given name; `-1` when none.
pub open spec fn spec_find_k(ks: Seq<NodeKV>, name: Seq<char>) -> int
    decreases ks.len(),
{
    if ks.len() == 0 {
        -1
    } else if name == ks[0].name {
        0
    } else {
        let r = spec_find_k(ks.drop_first(), name);
        if r < 0 {
            -1
        } else {
            r + 1
        }
    }
}

/// What `spec_find_k` returns: the first control with the name, or `-1`.
pub proof fn lemma_find_k(ks: Seq<NodeKV>, name: Seq<char>)
    ensures
        spec_find_k(ks, name) == -1 ==> forall|i: int|
            0 <= i < ks.len() ==> name != (#[trigger] ks[i]).name,
        spec_find_k(ks, name) != -1 ==> {
            let r = spec_find_k(ks, name);
            &&& 0 <= r < ks.len()
            &&& name == ks[r].name
            &&& forall|i: int| 0 <= i < r ==> name != (#[trigger] ks[i]).name
        },
    decreases ks.len(),
{
    if ks.len() > 0 && name != ks[0].name {
        lemma_find_k(ks.drop_first(), name);
        assert(forall|i: int|
            1 <= i < ks.len() ==> #[trigger] ks[i] == ks.drop_first()[i - 1]);
    }
}

/// Whether an existing operation node can stand for a primitive with the
/// given fields: equal rate, name, disambiguating index and special tag,
/// and pairwise-equal input and output sequences.
pub open spec fn spec_u_matches(
    nd: NodeUV,
    rate: Rate,
    name: Seq<char>,
    inputs: Seq<UgenV>,
    outputs: Seq<Rate>,
    index: int,
    special: int,
) -> bool {
    &&& nd.inputs.len() == inputs.len()
    &&& nd.outputs.len() == outputs.len()
    &&& (forall|i: int|
        0 <= i < outputs.len() ==> spec_rate_id(#[trigger] outputs[i]) == spec_rate_id(
            nd.outputs[i],
        ))
    &&& ugens_eq(inputs, nd.inputs)
    &&& nd.rate == rate
    &&& nd.name == name
    &&& nd.ugen_id == index
    &&& nd.special == special
}

/// The index of the first operation node the primitive can reuse; `-1`
/// when none.
pub open spec fn spec_find_u(
    us: Seq<NodeUV>,
    rate: Rate,
    name: Seq<char>,
    inputs: Seq<UgenV>,
    outputs: Seq<Rate>,
    index: int,
    special: int,
) -> int
    decreases us.len(),
{
    if us.len() == 0 {
        -1
    } else if spec_u_matches(us[0], rate, name, inputs, outputs, index, special) {
        0
    } else {
        let r = spec_find_u(us.drop_first(), rate, name, inputs, outputs, index, special);
        if r < 0 {
            -1
        } else {
            r + 1
        }
    }
}

/// What `spec_find_u` returns: the first reusable node, or `-1`.
pub proof fn lemma_find_u(
    us: Seq<NodeUV>,
    rate: Rate,
    name: Seq<char>,
    inputs: Seq<UgenV>,
    outputs: Seq<Rate>,
    index: int,
    special: int,
)
    ensures
        spec_find_u(us, rate, name, inputs, outputs, index, special) == -1 ==> forall|i: int|
            0 <= i < us.len() ==> !spec_u_matches(
                #[trigger] us[i],
                rate,
                name,
                inputs,
                outputs,
                index,
                special,
            ),
        spec_find_u(us, rate, name, inputs, outputs, index, special) != -1 ==> {
            let r = spec_find_u(us, rate, name, inputs, outputs, index, special);
            &&& 0 <= r < us.len()
            &&& spec_u_matches(us[r], rate, name, inputs, outputs, index, special)
            &&& forall|i: int|
                0 <= i < r ==> !spec_u_matches(
                    #[trigger] us[i],
                    rate,
                    name,
                    inputs,
                    outputs,
                    index,
                    special,
                )
        },
    decreases us.len(),
{
    if us.len() > 0 && !spec_u_matches(us[0], rate, name, inputs, outputs, index, special) {
        lemma_find_u(us.drop_first(), rate, name, inputs, outputs, index, special);
        assert(forall|i: int|
            1 <= i < us.len() ==> #[trigger] us[i] == us.drop_first()[i - 1]);
    }
}

/// Compiles a constant value: reuse the first equal constant, else append
/// a fresh one at the front of the table and advance `next_id`.
pub open spec fn spec_mk_node_c(bits: u32, g: GraphV) -> (NodeV, GraphV) {
    let k = spec_find_c(g.constants, bits);
    if k >= 0 {
        (NodeV::NodeC(g.constants[k]), g)
    } else {
        let node = NodeCV { id: g.next_id + 1, bits };
        (
            NodeV::NodeC(node),
            GraphV {
                next_id: g.next_id + 1,
                constants: seq![node] + g.constants,
                controls: g.controls,
                ugens: g.ugens,
            },
        )
    }
}

/// Compiles a control: reuse the first control with the same name, else
/// append a fresh one at the front of the table and advance `next_id`.
pub open spec fn spec_mk_node_k(name: Seq<char>, index: int, rate: Rate, g: GraphV) -> (
    NodeV,
    GraphV,
) {
    let k = spec_find_k(g.controls, name);
    if k >= 0 {
        (NodeV::NodeK(g.controls[k]), g)
    } else {
        let node = NodeKV { id: g.next_id + 1, name, rate, def: index };
        (
            NodeV::NodeK(node),
            GraphV {
                next_id: g.next_id + 1,
                constants: g.constants,
                controls: seq![node] + g.controls,
                ugens: g.ugens,
            },
        )
    }
}

/// How many nodes compiling a tree can add to the graph, at most.
pub open spec fn spec_ugen_size(u: UgenV) -> nat
    decreases u, 1int,
{
    match u {
        UgenV::IConst { .. } => 1,
        UgenV::FConst { .. } => 1,
        UgenV::Control { .. } => 1,
        UgenV::Primitive { prim } => 1 + spec_ugens_size(prim.inputs, prim.inputs.len() as int),
        UgenV::Mrg { left, right } => spec_ugen_size(*left) + spec_ugen_size(*right),
        UgenV::Proxy { primitive, .. } => 2 + spec_ugens_size(
            primitive.inputs,
            primitive.inputs.len() as int,
        ),
        _ => 0,
    }
}

/// How many nodes compiling the first `n` trees of a list can add.
pub open spec fn spec_ugens_size(l: Seq<UgenV>, n: int) -> nat
    decreases l, n,
{
    if n <= 0 || n > l.len() {
        0
    } else {
        spec_ugens_size(l, n - 1) + spec_ugen_size(l[n - 1])
    }
}

/// Whether a tree is in the compiler's input language: constants, controls,
/// primitives over compilable inputs, merges and proxies. Multi-channel
/// bundles and port references must have been eliminated before compiling.
pub open spec fn spec_compilable(u: UgenV) -> bool
    decreases u, 1int,
{
    match u {
        UgenV::IConst { .. } => true,
        UgenV::FConst { .. } => true,
        UgenV::Control { .. } => true,
        UgenV::Primitive { prim } => spec_compilable_list(prim.inputs),
        UgenV::Mrg { left, right } => spec_compilable(*left) && spec_compilable(*right),
        UgenV::Proxy { primitive, .. } => spec_compilable_list(primitive.inputs),
        _ => false,
    }
}

/// Whether every tree of a list is compilable.
pub open spec fn spec_compilable_list(l: Seq<UgenV>) -> bool
    decreases l,
{
    forall|i: int| 0 <= i < l.len() ==> spec_compilable(#[trigger] l[i])
}

/// Compiles the first `n` trees of an input list left to right, threading
/// the graph, and collects the resolved nodes in order.
pub open spec fn spec_acc(l: Seq<UgenV>, n: int, g: GraphV) -> (Seq<NodeV>, GraphV)
    decreases l, n, 0int,
{
    if n <= 0 || n > l.len() {
        (Seq::empty(), g)
    } else {
        let (ns, g1) = spec_acc(l, n - 1, g);
        let (nd, g2) = spec_mk_node(l[n - 1], g1);
        (ns.push(nd), g2)
    }
}

/// Compiles a primitive: compile every input left to right, convert each
/// resolved node to a port reference, then reuse the first matching
/// operation node or append a fresh one.
pub open spec fn spec_mk_node_u(p: PrimitiveV, g: GraphV) -> (NodeV, GraphV)
    decreases p, 1int, 0int,
{
    let (ns, g1) = spec_acc(p.inputs, p.inputs.len() as int, g);
    let inputs2 = Seq::new(ns.len(), |i: int| spec_as_from_port(ns[i]));
    let k = spec_find_u(g1.ugens, p.rate, p.name, inputs2, p.outputs, p.index, p.special);
    if k >= 0 {
        (NodeV::NodeU(g1.ugens[k]), g1)
    } else {
        let node = NodeUV {
            id: g1.next_id + 1,
            name: p.name,
            rate: p.rate,
            inputs: inputs2,
            outputs: p.outputs,
            special: p.special,
            ugen_id: p.index,
        };
        (
            NodeV::NodeU(node),
            GraphV {
                next_id: g1.next_id + 1,
                constants: g1.constants,
                controls: g1.controls,
                ugens: seq![node] + g1.ugens,
            },
        )
    }
}

/// Compiles a tree to a resolved node, threading the graph. Constants and
/// controls deduplicate; a merge compiles its right side first for its
/// effect on the graph and returns its left side; a proxy compiles its
/// primitive and wraps the result in a fresh proxy node.
pub open spec fn spec_mk_node(u: UgenV, g: GraphV) -> (NodeV, GraphV)
    decreases u, 2int, 0int,
{
    match u {
        UgenV::IConst { value } => spec_mk_node_c(spec_f32_bits_of_i32(value), g),
        UgenV::FConst { bits } => spec_mk_node_c(bits, g),
        UgenV::Control { name, index, rate } => spec_mk_node_k(name, index, rate, g),
        UgenV::Primitive { prim } => spec_mk_node_u(prim, g),
        UgenV::Mrg { left, right } => {
            let (_, g1) = spec_mk_node(*right, g);
            spec_mk_node(*left, g1)
        },
        UgenV::Proxy { primitive, index } => {
            let (nd, g1) = spec_mk_node_u(primitive, g);
            (
                NodeV::NodeP { id: g1.next_id + 1, node: Box::new(nd), p_idx: index },
                GraphV {
                    next_id: g1.next_id + 1,
                    constants: g1.constants,
                    controls: g1.controls,
                    ugens: g1.ugens,
                },
            )
        },
        _ => (NodeV::NodeC(NodeCV { id: -1, bits: 0 }), g),
    }
}

/// Compiling a tree never lowers `next_id`, and raises it by at most the
/// tree's size.
pub proof fn lemma_mk_node_growth(u: UgenV, g: GraphV)
    ensures
        g.next_id <= spec_mk_node(u, g).1.next_id <= g.next_id + spec_ugen_size(u),
    decreases u, 2int, 1int,
{
    match u {
        UgenV::Primitive { prim } => {
            lemma_mk_node_u_growth(prim, g);
        },
        UgenV::Mrg { left, right } => {
            lemma_mk_node_growth(*right, g);
            lemma_mk_node_growth(*left, spec_mk_node(*right, g).1);
        },
        UgenV::Proxy { primitive, .. } => {
            lemma_mk_node_u_growth(primitive, g);
        },
        _ => {},
    }
}

/// Compiling a primitive never lowers `next_id`, and raises it by at most
/// the primitive's size.
pub proof fn lemma_mk_node_u_growth(p: PrimitiveV, g: GraphV)
    ensures
        g.next_id <= spec_mk_node_u(p, g).1.next_id <= g.next_id + 1 + spec_ugens_size(
            p.inputs,
            p.inputs.len() as int,
        ),
    decreases p, 1int, 1int,
{
    lemma_acc_growth(p.inputs, p.inputs.len() as int, g);
}

/// Compiling an input list never lowers `next_id`, and raises it by at
/// most the sum of the input sizes.
pub proof fn lemma_acc_growth(l: Seq<UgenV>, n: int, g: GraphV)
    ensures
        g.next_id <= spec_acc(l, n, g).1.next_id <= g.next_id + spec_ugens_size(l, n),
    decreases l, n, 1int,
{
    if 0 < n <= l.len() {
        lemma_acc_growth(l, n - 1, g);
        lemma_mk_node_growth(l[n - 1], spec_acc(l, n - 1, g).1);
    }
}

/// Prefix sums of input sizes grow with the prefix.
pub proof fn lemma_ugens_size_mono(l: Seq<UgenV>, a: int, b: int)
    requires
        0 <= a <= b <= l.len(),
    ensures
        spec_ugens_size(l, a) <= spec_ugens_size(l, b),
    decreases b,
{
    if a < b {
        lemma_ugens_size_mono(l, a, b - 1);
    }
}

/// Copies a constant node.
fn dup_node_c(n: &NodeC) -> (r: NodeC)
    ensures
        r@ == n@,
{
    NodeC { id: n.id, bits: n.bits }
}

/// Copies a control node.
fn dup_node_k(n: &NodeK) -> (r: NodeK)
    ensures
        r@ == n@,
{
    NodeK { id: n.id, name: n.name.clone(), rate: n.rate, def: n.def }
}

/// Copies an operation node.
fn dup_node_u(n: &NodeU) -> (r: NodeU)
    ensures
        r@ == n@,
{
    NodeU {
        id: n.id,
        name: n.name.clone(),
        rate: n.rate,
        inputs: dup_ugen_list(&n.inputs),
        outputs: dup_rates(&n.outputs),
        special: n.special,
        ugen_id: n.ugen_id,
    }
}

/// Copies a constant table.
fn dup_nodecs(v: &Vec<NodeC>) -> (r: Vec<NodeC>)
    ensures
        view_nodecs_prefix(r, r.len() as int) == view_nodecs_prefix(*v, v.len() as int),
        r.len() == v.len(),
{
    let mut out: Vec<NodeC> = Vec::new();
    let mut i: usize = 0;
    while i < v.len()
        invariant
            i <= v.len(),
            out.len() == i,
            forall|j: int| 0 <= j < i ==> out@[j]@ == v@[j]@,
        decreases v.len() - i,
    {
        out.push(dup_node_c(&v[i]));
        i = i + 1;
    }
    proof {
        lemma_view_nodecs_prefix(out, out.len() as int);
        lemma_view_nodecs_prefix(*v, v.len() as int);
        assert(view_nodecs_prefix(out, out.len() as int) =~= view_nodecs_prefix(
            *v,
            v.len() as int,
        ));
    }
    out
}

/// Copies a control table.
fn dup_nodeks(v: &Vec<NodeK>) -> (r: Vec<NodeK>)
    ensures
        view_nodeks_prefix(r, r.len() as int) == view_nodeks_prefix(*v, v.len() as int),
        r.len() == v.len(),
{
    let mut out: Vec<NodeK> = Vec::new();
    let mut i: usize = 0;
    while i < v.len()
        invariant
            i <= v.len(),
            out.len() == i,
            forall|j: int| 0 <= j < i ==> out@[j]@ == v@[j]@,
        decreases v.len() - i,
    {
        out.push(dup_node_k(&v[i]));
        i = i + 1;
    }
    proof {
        lemma_view_nodeks_prefix(out, out.len() as int);
        lemma_view_nodeks_prefix(*v, v.len() as int);
        assert(view_nodeks_prefix(out, out.len() as int) =~= view_nodeks_prefix(
            *v,
            v.len() as int,
        ));
    }
    out
}

/// Copies an operation-node table.
fn dup_nodeus(v: &Vec<NodeU>) -> (r: Vec<NodeU>)
    ensures
        view_nodeus_prefix(r, r.len() as int) == view_nodeus_prefix(*v, v.len() as int),
        r.len() == v.len(),
{
    let mut out: Vec<NodeU> = Vec::new();
    let mut i: usize = 0;
    while i < v.len()
        invariant
            i <= v.len(),
            out.len() == i,
            forall|j: int| 0 <= j < i ==> out@[j]@ == v@[j]@,
        decreases v.len() - i,
    {
        out.push(dup_node_u(&v[i]));
        i = i + 1;
    }
    proof {
        lemma_view_nodeus_prefix(out, out.len() as int);
        lemma_view_nodeus_prefix(*v, v.len() as int);
        assert(view_nodeus_prefix(out, out.len() as int) =~= view_nodeus_prefix(
            *v,
            v.len() as int,
        ));
    }
    out
}

/// Copies a graph.
fn dup_graph(g: &Graph) -> (r: Graph)
    ensures
        r@ == g@,
{
    Graph {
        next_id: g.next_id,
        constants: dup_nodecs(&g.constants),
        controls: dup_nodeks(&g.controls),
        ugens: dup_nodeus(&g.ugens),
    }
}

/// A new table with `node` at the front of a copy of `v`.
fn push_front_c(node: NodeC, v: Vec<NodeC>) -> (r: Vec<NodeC>)
    ensures
        view_nodecs_prefix(r, r.len() as int) == seq![node@] + view_nodecs_prefix(
            v,
            v.len() as int,
        ),
{
    let ghost nodev = node@;
    let mut out: Vec<NodeC> = Vec::new();
    out.push(node);
    let mut i: usize = 0;
    while i < v.len()
        invariant
            i <= v.len(),
            out.len() == i + 1,
            out@[0]@ == nodev,
            forall|j: int| 1 <= j < out.len() ==> out@[j]@ == v@[j - 1]@,
        decreases v.len() - i,
    {
        out.push(dup_node_c(&v[i]));
        i = i + 1;
    }
    proof {
        lemma_view_nodecs_prefix(out, out.len() as int);
        lemma_view_nodecs_prefix(v, v.len() as int);
        assert(view_nodecs_prefix(out, out.len() as int) =~= seq![nodev]
            + view_nodecs_prefix(v, v.len() as int));
    }
    out
}

/// A new table with `node` at the front of a copy of `v`.
fn push_front_k(node: NodeK, v: Vec<NodeK>) -> (r: Vec<NodeK>)
    ensures
        view_nodeks_prefix(r, r.len() as int) == seq![node@] + view_nodeks_prefix(
            v,
            v.len() as int,
        ),
{
    let ghost nodev = node@;
    let mut out: Vec<NodeK> = Vec::new();
    out.push(node);
    let mut i: usize = 0;
    while i < v.len()
        invariant
            i <= v.len(),
            out.len() == i + 1,
            out@[0]@ == nodev,
            forall|j: int| 1 <= j < out.len() ==> out@[j]@ == v@[j - 1]@,
        decreases v.len() - i,
    {
        out.push(dup_node_k(&v[i]));
        i = i + 1;
    }
    proof {
        lemma_view_nodeks_prefix(out, out.len() as int);
        lemma_view_nodeks_prefix(v, v.len() as int);
        assert(view_nodeks_prefix(out, out.len() as int) =~= seq![nodev]
            + view_nodeks_prefix(v, v.len() as int));
    }
    out
}

/// A new table with `node` at the front of a copy of `v`.
fn push_front_u(node: NodeU, v: Vec<NodeU>) -> (r: Vec<NodeU>)
    ensures
        view_nodeus_prefix(r, r.len() as int) == seq![node@] + view_nodeus_prefix(
            v,
            v.len() as int,
        ),
{
    let ghost nodev = node@;
    let mut out: Vec<NodeU> = Vec::new();
    out.push(node);
    let mut i: usize = 0;
    while i < v.len()
        invariant
            i <= v.len(),
            out.len() == i + 1,
            out@[0]@ == nodev,
            forall|j: int| 1 <= j < out.len() ==> out@[j]@ == v@[j - 1]@,
        decreases v.len() - i,
    {
        out.push(dup_node_u(&v[i]));
        i = i + 1;
    }
    proof {
        lemma_view_nodeus_prefix(out, out.len() as int);
        lemma_view_nodeus_prefix(v, v.len() as int);
        assert(view_nodeus_prefix(out, out.len() as int) =~= seq![nodev]
            + view_nodeus_prefix(v, v.len() as int));
    }
    out
}

/// Returns the id recorded in a node.
pub fn node_id(node: &Node) -> (r: i32)
    ensures
        r as int == spec_node_id(node@),
{
    match node {
        Node::NodeC(nodec) => nodec.id,
        Node::NodeK(nodek) => nodek.id,
        Node::NodeU(nodeu) => nodeu.id,
        Node::NodeP(nodep) => nodep.id,
    }
}

/// Returns the port reference a compiled node is read through.
pub fn as_from_port(node: &Node) -> (r: Ugen)
    ensures
        r@ == spec_as_from_port(node@),
{
    match node {
        Node::NodeC(nodec) => Ugen::FromPortC(FromPortC { port_nid: nodec.id }),
        Node::NodeK(nodek) => Ugen::FromPortK(FromPortK { port_nid: nodek.id }),
        Node::NodeU(nodeu) => Ugen::FromPortU(
            FromPortU { port_nid: nodeu.id, port_idx: 0 },
        ),
        Node::NodeP(nodep) => Ugen::FromPortU(
            FromPortU { port_nid: node_id(&*nodep.node), port_idx: nodep.p_idx },
        ),
    }
}

/// Whether a constant node holds this value, as IEEE-754 equality of the
/// bit patterns.
pub fn find_c_p(bits: u32, nodec: &NodeC) -> (r: bool)
    ensures
        r == spec_f32_eq(bits, nodec@.bits),
{
    f32_bits_eq(bits, nodec.bits)
}

/// Whether a control node carries this name.
pub fn find_k_p(name: &String, nodek: &NodeK) -> (r: bool)
    ensures
        r == (name@ == nodek@.name),
{
    *name == nodek.name
}

/// Compiles a constant tree: reuse the first constant with the same
/// IEEE-754 value, else append a fresh one. Integer constants are promoted
/// to the nearest float.
#[verifier::loop_isolation(false)]
pub fn mk_node_c(ugen: &Ugen, gr: &Graph) -> (r: (Node, Graph))
    requires
        ugen@ is IConst || ugen@ is FConst,
        gr@.next_id < i32::MAX,
    ensures
        r.0@ == spec_mk_node(ugen@, gr@).0,
        r.1@ == spec_mk_node(ugen@, gr@).1,
{
    let bits: u32 = match ugen {
        Ugen::IConst(iconst) => f32_bits_of_i32(iconst.value),
        Ugen::FConst(fconst) => fconst.bits,
        _ => vstd::pervasive::unreached(),
    };
    let ghost gv = gr@;
    proof {
        lemma_view_nodecs_prefix(gr.constants, gr.constants.len() as int);
        lemma_find_c(gv.constants, bits);
    }
    let mut i: usize = 0;
    while i < gr.constants.len()
        invariant
            i <= gr.constants.len(),
            forall|j: int| 0 <= j < i ==> !spec_f32_eq(bits, (#[trigger] gv.constants[j]).bits),
        decreases gr.constants.len() - i,
    {
        if find_c_p(bits, &gr.constants[i]) {
            proof {
                assert(spec_f32_eq(bits, gv.constants[i as int].bits));
                assert(spec_find_c(gv.constants, bits) == i as int);
            }
            return (Node::NodeC(dup_node_c(&gr.constants[i])), dup_graph(gr));
        }
        i = i + 1;
    }
    proof {
        assert(spec_find_c(gv.constants, bits) == -1);
    }
    let node = NodeC { id: gr.next_id + 1, bits };
    let gr1 = Graph {
        next_id: gr.next_id + 1,
        constants: push_front_c(dup_node_c(&node), dup_nodecs(&gr.constants)),
        controls: dup_nodeks(&gr.controls),
        ugens: dup_nodeus(&gr.ugens),
    };
    (Node::NodeC(node), gr1)
}

/// Compiles a control tree: reuse the first control with the same name,
/// else append a fresh one whose default is the control's declared index.
#[verifier::loop_isolation(false)]
pub fn mk_node_k(ugen: &Ugen, gr: &Graph) -> (r: (Node, Graph))
    requires
        ugen@ is Control,
        gr@.next_id < i32::MAX,
    ensures
        r.0@ == spec_mk_node(ugen@, gr@).0,
        r.1@ == spec_mk_node(ugen@, gr@).1,
{
    let control = match ugen {
        Ugen::Control(contr) => contr,
        _ => vstd::pervasive::unreached(),
    };
    let ghost gv = gr@;
    proof {
        lemma_view_nodeks_prefix(gr.controls, gr.controls.len() as int);
        lemma_find_k(gv.controls, control.name@);
    }
    let mut i: usize = 0;
    while i < gr.controls.len()
        invariant
            i <= gr.controls.len(),
            forall|j: int| 0 <= j < i ==> control.name@ != (#[trigger] gv.controls[j]).name,
        decreases gr.controls.len() - i,
    {
        if find_k_p(&control.name, &gr.controls[i]) {
            proof {
                assert(control.name@ == gv.controls[i as int].name);
                assert(spec_find_k(gv.controls, control.name@) == i as int);
            }
            return (Node::NodeK(dup_node_k(&gr.controls[i])), dup_graph(gr));
        }
        i = i + 1;
    }
    proof {
        assert(spec_find_k(gv.controls, control.name@) == -1);
    }
    let node = NodeK {
        id: gr.next_id + 1,
        name: control.name.clone(),
        rate: control.rate,
        def: control.index,
    };
    let gr1 = Graph {
        next_id: gr.next_id + 1,
        constants: dup_nodecs(&gr.constants),
        controls: push_front_k(dup_node_k(&node), dup_nodeks(&gr.controls)),
        ugens: dup_nodeus(&gr.ugens),
    };
    (Node::NodeK(node), gr1)
}

/// Whether an existing operation node can stand for the primitive, as
/// `spec_u_matches`.
fn find_u_p(
    rate: Rate,
    name: &String,
    inputs: &UgenList,
    outputs: &RateList,
    id: i32,
    sp: i32,
    node: &NodeU,
) -> (r: bool)
    ensures
        r == spec_u_matches(
            node@,
            rate,
            name@,
            view_ugens(*inputs),
            outputs@,
            id as int,
            sp as int,
        ),
{
    proof {
        lemma_view_ugens_prefix(*inputs, inputs.len() as int);
        lemma_view_ugens_prefix(node.inputs, node.inputs.len() as int);
    }
    if inputs.len() != node.inputs.len() || outputs.len() != node.outputs.len() {
        return false;
    }
    let mut i: usize = 0;
    while i < outputs.len()
        invariant
            i <= outputs.len(),
            outputs.len() == node.outputs.len(),
            forall|j: int|
                0 <= j < i ==> spec_rate_id(#[trigger] outputs@[j]) == spec_rate_id(
                    node.outputs@[j],
                ),
        decreases outputs.len() - i,
    {
        if rate_id(outputs[i]) != rate_id(node.outputs[i]) {
            return false;
        }
        i = i + 1;
    }
    if !compare_ugen_list(inputs, &node.inputs) {
        return false;
    }
    node.rate == rate && node.name == *name && node.ugen_id == id && node.special == sp
}

/// Compiles a primitive: every input is compiled left to right threading
/// the graph, the resolved nodes become port references, and the first
/// matching operation node is reused or a fresh one appended.
#[verifier::loop_isolation(false)]
pub fn mk_node_u(primitive: &Primitive, gr: &Graph) -> (r: (Node, Graph))
    requires
        spec_compilable_list(primitive@.inputs),
        gr@.next_id + 1 + spec_ugens_size(primitive@.inputs, primitive@.inputs.len() as int)
            <= i32::MAX,
    ensures
        r.0@ == spec_mk_node_u(primitive@, gr@).0,
        r.1@ == spec_mk_node_u(primitive@, gr@).1,
    decreases *primitive, 1int,
{
    let ghost pv = primitive@;
    let ghost gv = gr@;
    proof {
        lemma_view_ugens_prefix(primitive.inputs, primitive.inputs.len() as int);
    }
    let mut cur: Graph = dup_graph(gr);
    let mut inputs2: UgenList = Vec::new();
    let ghost mut ns: Seq<NodeV> = Seq::empty();
    let mut i: usize = 0;
    while i < primitive.inputs.len()
        invariant
            i <= primitive.inputs.len(),
            ns == spec_acc(pv.inputs, i as int, gv).0,
            cur@ == spec_acc(pv.inputs, i as int, gv).1,
            ns.len() == i,
            inputs2.len() == i,
            forall|j: int|
                0 <= j < i ==> view_ugen(*inputs2@[j]) == spec_as_from_port(#[trigger] ns[j]),
        decreases primitive.inputs.len() - i,
    {
        proof {
            assert(spec_compilable(pv.inputs[i as int]));
            lemma_acc_growth(pv.inputs, i as int, gv);
            lemma_ugens_size_mono(pv.inputs, i + 1, pv.inputs.len() as int);
            assert(spec_ugens_size(pv.inputs, i as int) + spec_ugen_size(pv.inputs[i as int])
                == spec_ugens_size(pv.inputs, i + 1));
        }
        let (nd, g2) = mk_node(&*primitive.inputs[i], &cur);
        let port = as_from_port(&nd);
        proof {
            ns = ns.push(nd@);
        }
        inputs2.push(Box::new(port));
        cur = g2;
        i = i + 1;
    }
    let ghost accr = spec_acc(pv.inputs, pv.inputs.len() as int, gv);
    let ghost ports = Seq::new(ns.len(), |j: int| spec_as_from_port(ns[j]));
    proof {
        lemma_view_ugens_prefix(inputs2, inputs2.len() as int);
        assert(view_ugens(inputs2) =~= ports);
        lemma_find_u(cur@.ugens, pv.rate, pv.name, ports, pv.outputs, pv.index, pv.special);
        lemma_view_nodeus_prefix(cur.ugens, cur.ugens.len() as int);
        lemma_acc_growth(pv.inputs, pv.inputs.len() as int, gv);
    }
    let mut k: usize = 0;
    while k < cur.ugens.len()
        invariant
            k <= cur.ugens.len(),
            forall|j: int|
                0 <= j < k ==> !spec_u_matches(
                    #[trigger] cur@.ugens[j],
                    pv.rate,
                    pv.name,
                    ports,
                    pv.outputs,
                    pv.index,
                    pv.special,
                ),
        decreases cur.ugens.len() - k,
    {
        if find_u_p(
            primitive.rate,
            &primitive.name,
            &inputs2,
            &primitive.outputs,
            primitive.index,
            primitive.special,
            &cur.ugens[k],
        ) {
            proof {
                assert(cur@.ugens[k as int] == cur.ugens@[k as int]@);
                assert(spec_u_matches(
                    cur@.ugens[k as int],
                    pv.rate,
                    pv.name,
                    ports,
                    pv.outputs,
                    pv.index,
                    pv.special,
                ));
                assert(spec_find_u(
                    cur@.ugens,
                    pv.rate,
                    pv.name,
                    ports,
                    pv.outputs,
                    pv.index,
                    pv.special,
                ) == k as int);
            }
            let nd = dup_node_u(&cur.ugens[k]);
            return (Node::NodeU(nd), cur);
        }
        k = k + 1;
    }
    proof {
        assert(spec_find_u(cur@.ugens, pv.rate, pv.name, ports, pv.outputs, pv.index, pv.special)
            == -1);
    }
    let node = NodeU {
        id: cur.next_id + 1,
        name: primitive.name.clone(),
        rate: primitive.rate,
        inputs: inputs2,
        outputs: dup_rates(&primitive.outputs),
        special: primitive.special,
        ugen_id: primitive.index,
    };
    let nd_out = dup_node_u(&node);
    let Graph { next_id, constants, controls, ugens } = cur;
    let gr1 = Graph {
        next_id: next_id + 1,
        constants,
        controls,
        ugens: push_front_u(node, ugens),
    };
    (Node::NodeU(nd_out), gr1)
}

/// The right fold of a channel list into nested merges: channel zero on
/// the left, the fold of the rest on the right.
pub open spec fn spec_mrg_n(l: Seq<UgenV>) -> UgenV
    decreases l.len(),
{
    if l.len() <= 1 {
        l[0]
    } else if l.len() == 2 {
        UgenV::Mrg { left: Box::new(l[0]), right: Box::new(l[1]) }
    } else {
        UgenV::Mrg { left: Box::new(l[0]), right: Box::new(spec_mrg_n(l.drop_first())) }
    }
}

/// Folds a nonempty channel list into nested merges, as `spec_mrg_n`.
#[verifier::loop_isolation(false)]
pub fn mrg_n(lst: &UgenList) -> (r: Ugen)
    requires
        lst.len() >= 1,
    ensures
        r@ == spec_mrg_n(view_ugens(*lst)),
    decreases lst.len(),
{
    proof {
        lemma_view_ugens_prefix(*lst, lst.len() as int);
    }
    if lst.len() == 1 {
        crate::sc3::dup_ugen(&*lst[0])
    } else if lst.len() == 2 {
        Ugen::Mrg(
            Mrg {
                left: Box::new(crate::sc3::dup_ugen(&*lst[0])),
                right: Box::new(crate::sc3::dup_ugen(&*lst[1])),
            },
        )
    } else {
        let mut tail: UgenList = Vec::new();
        let mut j: usize = 1;
        while j < lst.len()
            invariant
                1 <= j <= lst.len(),
                tail.len() == j - 1,
                forall|k: int| 0 <= k < j - 1 ==> view_ugen(*tail@[k]) == view_ugen(
                    *lst@[k + 1],
                ),
            decreases lst.len() - j,
        {
            tail.push(Box::new(crate::sc3::dup_ugen(&*lst[j])));
            j = j + 1;
        }
        proof {
            lemma_view_ugens_prefix(tail, tail.len() as int);
            assert(view_ugens(tail) =~= view_ugens(*lst).drop_first());
        }
        let rest = mrg_n(&tail);
        Ugen::Mrg(
            Mrg { left: Box::new(crate::sc3::dup_ugen(&*lst[0])), right: Box::new(rest) },
        )
    }
}

/// Whether the root rewrite is defined: every bundle met at the root or
/// along merges is nonempty.
pub open spec fn spec_root_ok(u: UgenV) -> bool
    decreases u,
{
    match u {
        UgenV::Mce { channels } => channels.len() >= 1,
        UgenV::Mrg { left, right } => spec_root_ok(*left) && spec_root_ok(*right),
        _ => true,
    }
}

/// The root rewrite: a bundle at the root becomes a merge chain so there
/// is one coherent root expression; merges have both sides prepared;
/// anything else is left alone.
pub open spec fn spec_prepare_root(u: UgenV) -> UgenV
    decreases u,
{
    match u {
        UgenV::Mce { channels } => if channels.len() == 0 {
            u
        } else {
            spec_mrg_n(channels)
        },
        UgenV::Mrg { left, right } => UgenV::Mrg {
            left: Box::new(spec_prepare_root(*left)),
            right: Box::new(spec_prepare_root(*right)),
        },
        _ => u,
    }
}

/// Rewrites the root of a tree, as `spec_prepare_root`.
pub fn prepare_root(ugen: &Ugen) -> (r: Ugen)
    requires
        spec_root_ok(ugen@),
    ensures
        r@ == spec_prepare_root(ugen@),
    decreases *ugen,
{
    match ugen {
        Ugen::Mce(mce) => {
            proof {
                lemma_view_ugens_prefix(mce.ugens, mce.ugens.len() as int);
            }
            mrg_n(&mce.ugens)
        },
        Ugen::Mrg(mrg) => Ugen::Mrg(
            Mrg {
                left: Box::new(prepare_root(&*mrg.left)),
                right: Box::new(prepare_root(&*mrg.right)),
            },
        ),
        _ => crate::sc3::dup_ugen(ugen),
    }
}

/// The synthetic control-vector source all control references implicitly
/// read from: one control-rate output per registered control.
pub open spec fn spec_implicit(num: int) -> NodeUV {
    NodeUV {
        id: -1,
        name: "Control"@,
        rate: Rate::RateKr,
        inputs: Seq::empty(),
        outputs: Seq::new(num as nat, |i: int| Rate::RateKr),
        special: 0,
        ugen_id: 0,
    }
}

/// Builds the implicit control-vector node for `num` controls.
pub fn implicit(num: usize) -> (r: NodeU)
    ensures
        r@ == spec_implicit(num as int),
{
    let mut rates: RateList = Vec::new();
    let mut i: usize = 0;
    while i < num
        invariant
            i <= num,
            rates@.len() == i,
            forall|j: int| 0 <= j < i ==> rates@[j] == Rate::RateKr,
        decreases num - i,
    {
        rates.push(Rate::RateKr);
        i = i + 1;
    }
    let node = NodeU {
        id: -1,
        name: "Control".to_owned(),
        rate: Rate::RateKr,
        inputs: Vec::new(),
        outputs: rates,
        special: 0,
        ugen_id: 0,
    };
    proof {
        lemma_view_ugens_prefix(node.inputs, 0);
        assert(view_ugens(node.inputs) =~= Seq::<UgenV>::empty());
        assert(node.outputs@ =~= Seq::new(num as nat, |i: int| Rate::RateKr));
    }
    node
}

/// The empty graph every compilation starts from.
pub open spec fn spec_empty_graph() -> GraphV {
    GraphV {
        next_id: 0,
        constants: Seq::empty(),
        controls: Seq::empty(),
        ugens: Seq::empty(),
    }
}

/// Returns the empty graph.
pub fn empty_graph() -> (r: Graph)
    ensures
        r@ == spec_empty_graph(),
{
    let g = Graph { next_id: 0, constants: Vec::new(), controls: Vec::new(), ugens: Vec::new() };
    proof {
        assert(g@.constants =~= Seq::<NodeCV>::empty());
        assert(g@.controls =~= Seq::<NodeKV>::empty());
        assert(g@.ugens =~= Seq::<NodeUV>::empty());
    }
    g
}

/// The compiled graph of a tree: the root is rewritten, compiled against
/// the empty graph, the operation table is put back into creation order,
/// and, when controls were registered, the implicit control-vector node is
/// put first.
pub open spec fn spec_synth(u: UgenV) -> GraphV {
    let root = spec_prepare_root(u);
    let g = spec_mk_node(root, spec_empty_graph()).1;
    let us = Seq::new(g.ugens.len(), |i: int| g.ugens[g.ugens.len() - 1 - i]);
    GraphV {
        next_id: -1,
        constants: g.constants,
        controls: g.controls,
        ugens: if g.controls.len() > 0 {
            seq![spec_implicit(g.controls.len() as int)] + us
        } else {
            us
        },
    }
}

/// Compiles a tree to its graph, as `spec_synth`.
#[verifier::loop_isolation(false)]
pub fn synth(ugen: &Ugen) -> (r: Graph)
    requires
        spec_root_ok(ugen@),
        spec_compilable(spec_prepare_root(ugen@)),
        spec_ugen_size(spec_prepare_root(ugen@)) <= i32::MAX,
    ensures
        r@ == spec_synth(ugen@),
{
    let root = prepare_root(ugen);
    let eg = empty_graph();
    let (_, gr) = mk_node(&root, &eg);
    let ghost gv = spec_mk_node(spec_prepare_root(ugen@), spec_empty_graph()).1;
    let Graph { next_id: _, constants, controls, ugens } = gr;
    proof {
        lemma_view_nodeks_prefix(controls, controls.len() as int);
        lemma_view_nodecs_prefix(constants, constants.len() as int);
    }
    let mut us1: Vec<NodeU> = Vec::new();
    let has_controls: bool = controls.len() != 0;
    if has_controls {
        us1.push(implicit(controls.len()));
    }
    let base: usize = if has_controls {
        1
    } else {
        0
    };
    proof {
        lemma_view_nodeus_prefix(ugens, ugens.len() as int);
    }
    let mut j: usize = 0;
    while j < ugens.len()
        invariant
            j <= ugens.len(),
            us1.len() == base + j,
            base == if has_controls {
                1int
            } else {
                0int
            },
            us1.len() >= base,
            has_controls ==> us1@[0]@ == spec_implicit(gv.controls.len() as int),
            forall|k: int| 0 <= k < j ==> (#[trigger] us1@[base + k])@ == gv.ugens[gv.ugens.len() - 1 - k],
        decreases ugens.len() - j,
    {
        us1.push(dup_node_u(&ugens[ugens.len() - 1 - j]));
        j = j + 1;
    }
    let out = Graph { next_id: -1, constants, controls, ugens: us1 };
    proof {
        lemma_view_nodeus_prefix(out.ugens, out.ugens.len() as int);
        let rhs = spec_synth(ugen@).ugens;
        assert(out@.ugens.len() == rhs.len());
        assert forall|i: int| 0 <= i < out@.ugens.len() implies out@.ugens[i] == rhs[i] by {
            if !(has_controls && i == 0) {
                let k = i - base;
                assert(us1@[base + k]@ == gv.ugens[gv.ugens.len() - 1 - k]);
            }
        }
        assert(out@.ugens =~= rhs);
        assert(out@ == spec_synth(ugen@));
    }
    out
}

/// A merge chain over compilable channels is compilable.
pub proof fn lemma_mrg_n_compilable(l: Seq<UgenV>)
    requires
        l.len() >= 1,
        forall|i: int| 0 <= i < l.len() ==> spec_compilable(#[trigger] l[i]),
    ensures
        spec_compilable(spec_mrg_n(l)),
    decreases l.len(),
{
    if l.len() > 2 {
        assert(forall|i: int|
            0 <= i < l.len() - 1 ==> #[trigger] l.drop_first()[i] == l[i + 1]);
        lemma_mrg_n_compilable(l.drop_first());
    }
}

/// Whether a tree is ready for the root rewrite: bundles along the root
/// are nonempty with compilable channels, merges are root-ready on both
/// sides, and anything else is compilable.
pub open spec fn spec_root_compilable(u: UgenV) -> bool
    decreases u,
{
    match u {
        UgenV::Mce { channels } => channels.len() >= 1 && (forall|i: int|
            0 <= i < channels.len() ==> spec_compilable(#[trigger] channels[i])),
        UgenV::Mrg { left, right } => spec_root_compilable(*left) && spec_root_compilable(
            *right,
        ),
        _ => spec_compilable(u),
    }
}

/// The root rewrite turns every root-ready tree into a compilable one: in
/// particular a tree whose root is a channel bundle is rewritten into a
/// merge chain and compiling it cannot meet an unexpanded root shape.
pub proof fn lemma_prepare_root_compilable(u: UgenV)
    requires
        spec_root_compilable(u),
    ensures
        spec_root_ok(u),
        spec_compilable(spec_prepare_root(u)),
    decreases u,
{
    match u {
        UgenV::Mce { channels } => {
            lemma_mrg_n_compilable(channels);
        },
        UgenV::Mrg { left, right } => {
            lemma_prepare_root_compilable(*left);
            lemma_prepare_root_compilable(*right);
        },
        _ => {},
    }
}

/// Compiling the same constant twice registers it once: the second
/// compilation returns the same node and leaves the graph unchanged. (A
/// NaN pattern is excluded: IEEE-754 equality never matches it, so each
/// occurrence registers afresh.)
pub proof fn lemma_mk_node_c_dedup(bits: u32, g: GraphV)
    requires
        !crate::numbits::spec_f32_is_nan(bits),
    ensures
        spec_mk_node_c(bits, spec_mk_node_c(bits, g).1) == spec_mk_node_c(bits, g),
{
    let k = spec_find_c(g.constants, bits);
    if k < 0 {
        let g1 = spec_mk_node_c(bits, g).1;
        assert(g1.constants[0].bits == bits);
        assert(spec_f32_eq(bits, g1.constants[0].bits));
        assert(spec_find_c(g1.constants, bits) == 0);
    }
}

/// Compiling the same control name twice registers it once: the second
/// compilation returns the same node and leaves the graph unchanged.
pub proof fn lemma_mk_node_k_dedup(name: Seq<char>, index: int, rate: Rate, g: GraphV)
    ensures
        spec_mk_node_k(name, index, rate, spec_mk_node_k(name, index, rate, g).1)
            == spec_mk_node_k(name, index, rate, g),
{
    let k = spec_find_k(g.controls, name);
    if k < 0 {
        let g1 = spec_mk_node_k(name, index, rate, g).1;
        assert(g1.controls[0].name == name);
        assert(spec_find_k(g1.controls, name) == 0);
    }
}

/// Compiles a tree to a resolved node, threading the graph, as
/// `spec_mk_node`: constants and controls deduplicate, a merge registers
/// its right side before returning its left, and a proxy always allocates
/// a fresh proxy node.
pub fn mk_node(ugen: &Ugen, gr: &Graph) -> (r: (Node, Graph))
    requires
        spec_compilable(ugen@),
        gr@.next_id + spec_ugen_size(ugen@) <= i32::MAX,
    ensures
        r.0@ == spec_mk_node(ugen@, gr@).0,
        r.1@ == spec_mk_node(ugen@, gr@).1,
    decreases *ugen, 2int,
{
    match ugen {
        Ugen::IConst(_) => mk_node_c(ugen, gr),
        Ugen::FConst(_) => mk_node_c(ugen, gr),
        Ugen::Control(_) => mk_node_k(ugen, gr),
        Ugen::Primitive(primitive) => mk_node_u(primitive, gr),
        Ugen::Mrg(mrg) => {
            proof {
                lemma_mk_node_growth(mrg.right@, gr@);
            }
            let (_, gg) = mk_node(&*mrg.right, gr);
            mk_node(&*mrg.left, &gg)
        },
        Ugen::Proxy(proxy) => {
            proof {
                lemma_mk_node_u_growth(proxy.primitive@, gr@);
            }
            let (nn, gr1) = mk_node_u(&proxy.primitive, gr);
            let nodep = NodeP { id: gr1.next_id + 1, node: Box::new(nn), p_idx: proxy.index };
            let r0 = Node::NodeP(nodep);
            let Graph { next_id, constants, controls, ugens } = gr1;
            let gr2 = Graph { next_id: next_id + 1, constants, controls, ugens };
            (r0, gr2)
        },
        _ => vstd::pervasive::unreached(),
    }
}

impl Default for NodeU {
    /// The empty operation node: id zero, no name, no ports, control rate.
    fn default() -> (r: Self)
        ensures
            r@.id == 0,
            r@.name == Seq::<char>::empty(),
            r@.inputs == Seq::<UgenV>::empty(),
            r@.outputs == Seq::<Rate>::empty(),
            r@.special == 0,
            r@.ugen_id == 0,
            r@.rate == Rate::RateKr,
    {
        let n = NodeU {
            id: 0,
            name: String::new(),
            rate: Rate::RateKr,
            inputs: Vec::new(),
            outputs: Vec::new(),
            special: 0,
            ugen_id: 0,
        };
        proof {
            lemma_view_ugens_prefix(n.inputs, 0);
            assert(view_ugens(n.inputs) =~= Seq::<UgenV>::empty());
            assert(n@.outputs =~= Seq::<Rate>::empty());
        }
        n
    }
}

/// Unwraps a constant node.
pub fn get_node_c(node: &Node) -> (r: NodeC)
    requires
        node@ is NodeC,
    ensures
        node@ == NodeV::NodeC(r@),
{
    match node {
        Node::NodeC(nodec) => dup_node_c(nodec),
        _ => vstd::pervasive::unreached(),
    }
}

/// Unwraps a control node.
pub fn get_node_k(node: &Node) -> (r: NodeK)
    requires
        node@ is NodeK,
    ensures
        node@ == NodeV::NodeK(r@),
{
    match node {
        Node::NodeK(nodek) => dup_node_k(nodek),
        _ => vstd::pervasive::unreached(),
    }
}

/// Unwraps an operation node.
pub fn get_node_u(node: &Node) -> (r: NodeU)
    requires
        node@ is NodeU,
    ensures
        node@ == NodeV::NodeU(r@),
{
    match node {
        Node::NodeU(nodeu) => dup_node_u(nodeu),
        _ => vstd::pervasive::unreached(),
    }
}

/// Whether some constant of the graph carries this id.
pub open spec fn c_id_in(g: GraphV, nid: int) -> bool {
    exists|k: int| 0 <= k < g.constants.len() && (#[trigger] g.constants[k]).id == nid
}

/// Whether some control of the graph carries this id.
pub open spec fn k_id_in(g: GraphV, nid: int) -> bool {
    exists|k: int| 0 <= k < g.controls.len() && (#[trigger] g.controls[k]).id == nid
}

/// Whether some operation node of the graph carries this id.
pub open spec fn u_id_in(g: GraphV, nid: int) -> bool {
    exists|k: int| 0 <= k < g.ugens.len() && (#[trigger] g.ugens[k]).id == nid
}

/// Whether a port reference points at a node the graph holds.
pub open spec fn port_present(g: GraphV, f: UgenV) -> bool {
    match f {
        UgenV::FromPortC { nid } => c_id_in(g, nid),
        UgenV::FromPortK { nid } => k_id_in(g, nid),
        UgenV::FromPortU { nid, .. } => u_id_in(g, nid),
        _ => false,
    }
}

/// Whether every input of every operation node points at a node the
/// graph holds: the internal consistency the encoder relies on.
pub open spec fn wf_graph(g: GraphV) -> bool {
    forall|i: int, j: int|
        0 <= i < g.ugens.len() && 0 <= j < (#[trigger] g.ugens[i]).inputs.len()
            ==> port_present(g, #[trigger] g.ugens[i].inputs[j])
}

/// Whether the second graph holds every node id the first one holds.
pub open spec fn graph_extends(g1: GraphV, g2: GraphV) -> bool {
    &&& (forall|k: int|
        0 <= k < g1.constants.len() ==> c_id_in(g2, (#[trigger] g1.constants[k]).id))
    &&& (forall|k: int|
        0 <= k < g1.controls.len() ==> k_id_in(g2, (#[trigger] g1.controls[k]).id))
    &&& (forall|k: int| 0 <= k < g1.ugens.len() ==> u_id_in(g2, (#[trigger] g1.ugens[k]).id))
}

/// Extension is reflexive.
pub proof fn lemma_extends_refl(g: GraphV)
    ensures
        graph_extends(g, g),
{
}

/// Extension is transitive.
pub proof fn lemma_extends_trans(g1: GraphV, g2: GraphV, g3: GraphV)
    requires
        graph_extends(g1, g2),
        graph_extends(g2, g3),
    ensures
        graph_extends(g1, g3),
{
    assert forall|k: int|
        0 <= k < g1.constants.len() implies c_id_in(g3, (#[trigger] g1.constants[k]).id) by {
        let m = choose|m: int|
            0 <= m < g2.constants.len() && (#[trigger] g2.constants[m]).id
                == g1.constants[k].id;
    }
    assert forall|k: int|
        0 <= k < g1.controls.len() implies k_id_in(g3, (#[trigger] g1.controls[k]).id) by {
        let m = choose|m: int|
            0 <= m < g2.controls.len() && (#[trigger] g2.controls[m]).id == g1.controls[k].id;
    }
    assert forall|k: int|
        0 <= k < g1.ugens.len() implies u_id_in(g3, (#[trigger] g1.ugens[k]).id) by {
        let m = choose|m: int|
            0 <= m < g2.ugens.len() && (#[trigger] g2.ugens[m]).id == g1.ugens[k].id;
    }
}

/// A port reference stays resolvable under extension.
pub proof fn lemma_port_present_mono(g1: GraphV, g2: GraphV, f: UgenV)
    requires
        graph_extends(g1, g2),
        port_present(g1, f),
    ensures
        port_present(g2, f),
{
    match f {
        UgenV::FromPortC { nid } => {
            let k = choose|k: int|
                0 <= k < g1.constants.len() && (#[trigger] g1.constants[k]).id == nid;
        },
        UgenV::FromPortK { nid } => {
            let k = choose|k: int|
                0 <= k < g1.controls.len() && (#[trigger] g1.controls[k]).id == nid;
        },
        UgenV::FromPortU { nid, .. } => {
            let k = choose|k: int|
                0 <= k < g1.ugens.len() && (#[trigger] g1.ugens[k]).id == nid;
        },
        _ => {},
    }
}

/// Consistency carries over to any extension that keeps the operation
/// table.
proof fn lemma_wf_same_ugens(g1: GraphV, g2: GraphV)
    requires
        wf_graph(g1),
        graph_extends(g1, g2),
        g2.ugens == g1.ugens,
    ensures
        wf_graph(g2),
{
    assert forall|i: int, j: int|
        0 <= i < g2.ugens.len() && 0 <= j < (#[trigger] g2.ugens[i]).inputs.len()
            implies port_present(g2, #[trigger] g2.ugens[i].inputs[j]) by {
        lemma_port_present_mono(g1, g2, g1.ugens[i].inputs[j]);
    }
}

/// Compiling a tree keeps the graph consistent, only extends it, and
/// returns a node the new graph holds.
pub proof fn lemma_mk_node_wf(u: UgenV, g: GraphV)
    requires
        spec_compilable(u),
        wf_graph(g),
    ensures
        graph_extends(g, spec_mk_node(u, g).1),
        wf_graph(spec_mk_node(u, g).1),
        port_present(spec_mk_node(u, g).1, spec_as_from_port(spec_mk_node(u, g).0)),
    decreases u, 2int, 1int,
{
    match u {
        UgenV::IConst { value } => {
            lemma_mk_node_c_wf(spec_f32_bits_of_i32(value), g);
            assert(spec_mk_node(u, g) == spec_mk_node_c(spec_f32_bits_of_i32(value), g));
        },
        UgenV::FConst { bits } => {
            lemma_mk_node_c_wf(bits, g);
            assert(spec_mk_node(u, g) == spec_mk_node_c(bits, g));
        },
        UgenV::Control { name, index, rate } => {
            lemma_mk_node_k_wf(name, index, rate, g);
            assert(spec_mk_node(u, g) == spec_mk_node_k(name, index, rate, g));
        },
        UgenV::Primitive { prim } => {
            lemma_mk_node_u_wf(prim, g);
            assert(spec_mk_node(u, g) == spec_mk_node_u(prim, g));
        },
        UgenV::Mrg { left, right } => {
            lemma_mk_node_wf(*right, g);
            let g1 = spec_mk_node(*right, g).1;
            lemma_mk_node_wf(*left, g1);
            lemma_extends_trans(g, g1, spec_mk_node(*left, g1).1);
        },
        UgenV::Proxy { primitive, index } => {
            lemma_mk_node_u_wf(primitive, g);
            let (nd, g1) = spec_mk_node_u(primitive, g);
            let g2 = spec_mk_node(u, g).1;
            assert(g2.constants == g1.constants && g2.controls == g1.controls && g2.ugens
                == g1.ugens);
            assert forall|m: int|
                0 <= m < g1.constants.len() implies c_id_in(
                g2,
                (#[trigger] g1.constants[m]).id,
            ) by {
                assert(g2.constants[m] == g1.constants[m]);
            }
            assert forall|m: int|
                0 <= m < g1.controls.len() implies k_id_in(
                g2,
                (#[trigger] g1.controls[m]).id,
            ) by {
                assert(g2.controls[m] == g1.controls[m]);
            }
            assert forall|m: int|
                0 <= m < g1.ugens.len() implies u_id_in(g2, (#[trigger] g1.ugens[m]).id) by {
                assert(g2.ugens[m] == g1.ugens[m]);
            }
            assert(graph_extends(g1, g2));
            lemma_extends_trans(g, g1, g2);
            lemma_wf_same_ugens(g1, g2);
            lemma_port_present_mono(g1, g2, spec_as_from_port(nd));
            assert(nd is NodeU);
            assert(u_id_in(g2, spec_node_id(nd)));
            assert(port_present(g2, spec_as_from_port(spec_mk_node(u, g).0)));
        },
        _ => {
            assert(false);
        },
    }
}

/// Registering a constant keeps the graph consistent and resolvable.
proof fn lemma_mk_node_c_wf(bits: u32, g: GraphV)
    requires
        wf_graph(g),
    ensures
        graph_extends(g, spec_mk_node_c(bits, g).1),
        wf_graph(spec_mk_node_c(bits, g).1),
        port_present(spec_mk_node_c(bits, g).1, spec_as_from_port(spec_mk_node_c(bits, g).0)),
{
    let k = spec_find_c(g.constants, bits);
    lemma_find_c(g.constants, bits);
    if k >= 0 {
        lemma_extends_refl(g);
    } else {
        let g1 = spec_mk_node_c(bits, g).1;
        assert(g1.constants[0] == NodeCV { id: g.next_id + 1, bits });
        assert forall|m: int|
            0 <= m < g.constants.len() implies c_id_in(g1, (#[trigger] g.constants[m]).id) by {
            assert(g1.constants[m + 1] == g.constants[m]);
        }
        assert forall|m: int|
            0 <= m < g.controls.len() implies k_id_in(g1, (#[trigger] g.controls[m]).id) by {
            assert(g1.controls[m] == g.controls[m]);
        }
        assert forall|m: int|
            0 <= m < g.ugens.len() implies u_id_in(g1, (#[trigger] g.ugens[m]).id) by {
            assert(g1.ugens[m] == g.ugens[m]);
        }
        lemma_wf_same_ugens(g, g1);
    }
}

/// Registering a control keeps the graph consistent and resolvable.
proof fn lemma_mk_node_k_wf(name: Seq<char>, index: int, rate: Rate, g: GraphV)
    requires
        wf_graph(g),
    ensures
        graph_extends(g, spec_mk_node_k(name, index, rate, g).1),
        wf_graph(spec_mk_node_k(name, index, rate, g).1),
        port_present(
            spec_mk_node_k(name, index, rate, g).1,
            spec_as_from_port(spec_mk_node_k(name, index, rate, g).0),
        ),
{
    let k = spec_find_k(g.controls, name);
    lemma_find_k(g.controls, name);
    if k >= 0 {
        lemma_extends_refl(g);
    } else {
        let g1 = spec_mk_node_k(name, index, rate, g).1;
        assert(g1.controls[0] == NodeKV { id: g.next_id + 1, name, rate, def: index });
        assert forall|m: int|
            0 <= m < g.controls.len() implies k_id_in(g1, (#[trigger] g.controls[m]).id) by {
            assert(g1.controls[m + 1] == g.controls[m]);
        }
        assert forall|m: int|
            0 <= m < g.constants.len() implies c_id_in(g1, (#[trigger] g.constants[m]).id) by {
            assert(g1.constants[m] == g.constants[m]);
        }
        assert forall|m: int|
            0 <= m < g.ugens.len() implies u_id_in(g1, (#[trigger] g.ugens[m]).id) by {
            assert(g1.ugens[m] == g.ugens[m]);
        }
        lemma_wf_same_ugens(g, g1);
    }
}

/// Compiling an input list keeps the graph consistent, extends it, and
/// every collected node stays resolvable in the final graph.
proof fn lemma_acc_wf(l: Seq<UgenV>, n: int, g: GraphV)
    requires
        spec_compilable_list(l),
        wf_graph(g),
        n <= l.len(),
    ensures
        graph_extends(g, spec_acc(l, n, g).1),
        wf_graph(spec_acc(l, n, g).1),
        forall|m: int|
            0 <= m < spec_acc(l, n, g).0.len() ==> port_present(
                spec_acc(l, n, g).1,
                spec_as_from_port(#[trigger] spec_acc(l, n, g).0[m]),
            ),
    decreases l, n, 1int,
{
    if n <= 0 {
        lemma_extends_refl(g);
    } else {
        lemma_acc_wf(l, n - 1, g);
        let (ns, g1) = spec_acc(l, n - 1, g);
        assert(spec_compilable(l[n - 1]));
        lemma_mk_node_wf(l[n - 1], g1);
        let (nd, g2) = spec_mk_node(l[n - 1], g1);
        lemma_extends_trans(g, g1, g2);
        assert forall|m: int|
            0 <= m < spec_acc(l, n, g).0.len() implies port_present(
            g2,
            spec_as_from_port(#[trigger] spec_acc(l, n, g).0[m]),
        ) by {
            if m < ns.len() {
                assert(spec_acc(l, n, g).0[m] == ns[m]);
                lemma_port_present_mono(g1, g2, spec_as_from_port(ns[m]));
            } else {
                assert(spec_acc(l, n, g).0[m] == nd);
            }
        }
    }
}

/// Compiling a primitive keeps the graph consistent, extends it, and the
/// resulting operation node is resolvable.
proof fn lemma_mk_node_u_wf(p: PrimitiveV, g: GraphV)
    requires
        spec_compilable_list(p.inputs),
        wf_graph(g),
    ensures
        graph_extends(g, spec_mk_node_u(p, g).1),
        wf_graph(spec_mk_node_u(p, g).1),
        port_present(spec_mk_node_u(p, g).1, spec_as_from_port(spec_mk_node_u(p, g).0)),
    decreases p, 1int, 1int,
{
    lemma_acc_wf(p.inputs, p.inputs.len() as int, g);
    let (ns, g1) = spec_acc(p.inputs, p.inputs.len() as int, g);
    let inputs2 = Seq::new(ns.len(), |i: int| spec_as_from_port(ns[i]));
    let k = spec_find_u(g1.ugens, p.rate, p.name, inputs2, p.outputs, p.index, p.special);
    lemma_find_u(g1.ugens, p.rate, p.name, inputs2, p.outputs, p.index, p.special);
    if k >= 0 {
        // reuse: graph unchanged, the found node is at position k
    } else {
        let node = NodeUV {
            id: g1.next_id + 1,
            name: p.name,
            rate: p.rate,
            inputs: inputs2,
            outputs: p.outputs,
            special: p.special,
            ugen_id: p.index,
        };
        let g2 = spec_mk_node_u(p, g).1;
        assert(g2.ugens[0] == node);
        assert forall|m: int|
            0 <= m < g1.ugens.len() implies u_id_in(g2, (#[trigger] g1.ugens[m]).id) by {
            assert(g2.ugens[m + 1] == g1.ugens[m]);
        }
        assert forall|m: int|
            0 <= m < g1.constants.len() implies c_id_in(g2, (#[trigger] g1.constants[m]).id) by {
            assert(g2.constants[m] == g1.constants[m]);
        }
        assert forall|m: int|
            0 <= m < g1.controls.len() implies k_id_in(g2, (#[trigger] g1.controls[m]).id) by {
            assert(g2.controls[m] == g1.controls[m]);
        }
        assert(graph_extends(g1, g2));
        lemma_extends_trans(g, g1, g2);
        assert forall|i: int, j: int|
            0 <= i < g2.ugens.len() && 0 <= j < (#[trigger] g2.ugens[i]).inputs.len()
                implies port_present(g2, #[trigger] g2.ugens[i].inputs[j]) by {
            if i == 0 {
                assert(g2.ugens[0].inputs[j] == spec_as_from_port(ns[j]));
                lemma_port_present_mono(g1, g2, spec_as_from_port(ns[j]));
            } else {
                assert(g2.ugens[i] == g1.ugens[i - 1]);
                lemma_port_present_mono(g1, g2, g1.ugens[i - 1].inputs[j]);
            }
        }
    }
}

/// The empty graph is consistent.
pub proof fn lemma_empty_graph_wf()
    ensures
        wf_graph(spec_empty_graph()),
{
}

/// The compiled graph of any compilable, root-ready tree is internally
/// consistent: every input of every operation node, the implicit control
/// source included, points at a node one of the three tables holds.
pub proof fn lemma_synth_wf(u: UgenV)
    requires
        spec_compilable(spec_prepare_root(u)),
    ensures
        wf_graph(spec_synth(u)),
{
    let root = spec_prepare_root(u);
    let g0 = spec_empty_graph();
    lemma_empty_graph_wf();
    lemma_mk_node_wf(root, g0);
    let g = spec_mk_node(root, g0).1;
    let s = spec_synth(u);
    let base: int = if g.controls.len() > 0 {
        1
    } else {
        0
    };
    assert forall|i: int, j: int|
        0 <= i < s.ugens.len() && 0 <= j < (#[trigger] s.ugens[i]).inputs.len()
            implies port_present(s, #[trigger] s.ugens[i].inputs[j]) by {
        if i >= base {
            let m = g.ugens.len() - 1 - (i - base);
            assert(s.ugens[i] == g.ugens[m]);
            let f = g.ugens[m].inputs[j];
            assert(port_present(g, f));
            match f {
                UgenV::FromPortC { nid } => {
                    let k = choose|k: int|
                        0 <= k < g.constants.len() && (#[trigger] g.constants[k]).id == nid;
                    assert(s.constants[k].id == nid);
                },
                UgenV::FromPortK { nid } => {
                    let k = choose|k: int|
                        0 <= k < g.controls.len() && (#[trigger] g.controls[k]).id == nid;
                    assert(s.controls[k].id == nid);
                },
                UgenV::FromPortU { nid, .. } => {
                    let k = choose|k: int|
                        0 <= k < g.ugens.len() && (#[trigger] g.ugens[k]).id == nid;
                    assert(s.ugens[base + (g.ugens.len() - 1 - k)].id == nid);
                },
                _ => {},
            }
        }
    }
}

/// Whether a tree is a leaf input: an integer constant, a float constant
/// that is not a NaN pattern, or a control.
pub open spec fn spec_leafy(u: UgenV) -> bool {
    match u {
        UgenV::IConst { value } => i32::MIN <= value <= i32::MAX,
        UgenV::FConst { bits } => !crate::numbits::spec_f32_is_nan(bits),
        UgenV::Control { .. } => true,
        _ => false,
    }
}

/// Whether every tree of a list is a leaf input.
pub open spec fn spec_leafy_list(l: Seq<UgenV>) -> bool {
    forall|i: int| 0 <= i < l.len() ==> spec_leafy(#[trigger] l[i])
}

/// The IEEE-754 pattern a constant leaf compiles to.
pub open spec fn spec_leaf_bits(u: UgenV) -> u32 {
    match u {
        UgenV::IConst { value } => spec_f32_bits_of_i32(value),
        UgenV::FConst { bits } => bits,
        _ => 0,
    }
}

/// Whether the constant search for `bits` lands exactly on `c`.
pub open spec fn c_hit(g: GraphV, bits: u32, c: NodeCV) -> bool {
    &&& spec_find_c(g.constants, bits) >= 0
    &&& g.constants[spec_find_c(g.constants, bits)] == c
    &&& spec_f32_eq(bits, c.bits)
}

/// Whether the control search for `name` lands exactly on `kk`.
pub open spec fn k_hit(g: GraphV, name: Seq<char>, kk: NodeKV) -> bool {
    &&& spec_find_k(g.controls, name) >= 0
    &&& g.controls[spec_find_k(g.controls, name)] == kk
}

/// Whether a compiled node is what its leaf searches for in the graph.
pub open spec fn leaf_hits(g: GraphV, u: UgenV, n: NodeV) -> bool {
    match u {
        UgenV::IConst { .. } => n is NodeC && c_hit(g, spec_leaf_bits(u), n->NodeC_0),
        UgenV::FConst { .. } => n is NodeC && c_hit(g, spec_leaf_bits(u), n->NodeC_0),
        UgenV::Control { name, .. } => n is NodeK && k_hit(g, name, n->NodeK_0),
        _ => false,
    }
}

/// The conversion of an integer is never a NaN pattern.
pub proof fn lemma_bits_of_i32_not_nan(i: int)
    requires
        i32::MIN <= i <= i32::MAX,
    ensures
        !crate::numbits::spec_f32_is_nan(spec_f32_bits_of_i32(i)),
{
    vstd::arithmetic::power2::lemma2_to64();
    assert(((0u32 >> 23) & 0xff) != 0xff) by (bit_vector);
    if i != 0 {
        let m: nat = if i > 0 {
            i as nat
        } else {
            (-i) as nat
        };
        let sign: int = if i > 0 {
            0
        } else {
            1
        };
        crate::numbits::lemma_ilog2_bounds(m);
        let e = crate::numbits::spec_ilog2(m);
        if e > 31 {
            vstd::arithmetic::power2::lemma_pow2_strictly_increases(31nat, e);
            assert(false);
        }
        let p23 = vstd::arithmetic::power2::pow2(23);
        assert(p23 == 0x800000);
        if e <= 23 {
            let frac = m * vstd::arithmetic::power2::pow2((23 - e) as nat) - p23;
            assert(m * vstd::arithmetic::power2::pow2((23 - e) as nat) < vstd::arithmetic::power2::pow2(24nat)) by {
                vstd::arithmetic::power2::lemma_pow2_adds((23 - e) as nat, (e + 1) as nat);
                vstd::arithmetic::mul::lemma_mul_strict_inequality(
                    m as int,
                    vstd::arithmetic::power2::pow2((e + 1) as nat) as int,
                    vstd::arithmetic::power2::pow2((23 - e) as nat) as int,
                );
                vstd::arithmetic::mul::lemma_mul_is_commutative(
                    vstd::arithmetic::power2::pow2((e + 1) as nat) as int,
                    vstd::arithmetic::power2::pow2((23 - e) as nat) as int,
                );
            }
            assert(m * vstd::arithmetic::power2::pow2((23 - e) as nat) >= p23) by {
                vstd::arithmetic::power2::lemma_pow2_adds((23 - e) as nat, e);
                vstd::arithmetic::mul::lemma_mul_inequality(
                    vstd::arithmetic::power2::pow2(e) as int,
                    m as int,
                    vstd::arithmetic::power2::pow2((23 - e) as nat) as int,
                );
                vstd::arithmetic::mul::lemma_mul_is_commutative(
                    vstd::arithmetic::power2::pow2(e) as int,
                    vstd::arithmetic::power2::pow2((23 - e) as nat) as int,
                );
            }
            let bb = (sign * 0x80000000 + (e + 127) * p23 + frac) as u32;
            assert(spec_f32_bits_of_i32(i) == bb);
            lemma_exponent_field(sign, (e + 127) as int, frac as int);
        } else {
            let sh = (e - 23) as nat;
            let q = m / vstd::arithmetic::power2::pow2(sh);
            let r = m % vstd::arithmetic::power2::pow2(sh);
            let half = vstd::arithmetic::power2::pow2((sh - 1) as nat);
            let q1: nat = if r > half || (r == half && q % 2 == 1) {
                q + 1
            } else {
                q
            };
            assert(q < vstd::arithmetic::power2::pow2(24nat)) by {
                vstd::arithmetic::power2::lemma_pow2_adds(sh, 24nat);
                vstd::arithmetic::div_mod::lemma_div_by_multiple_is_strongly_ordered(
                    m as int,
                    vstd::arithmetic::power2::pow2((e + 1) as nat) as int,
                    vstd::arithmetic::power2::pow2(24nat) as int,
                    vstd::arithmetic::power2::pow2(sh) as int,
                );
                vstd::arithmetic::div_mod::lemma_div_multiples_vanish(
                    vstd::arithmetic::power2::pow2(24nat) as int,
                    vstd::arithmetic::power2::pow2(sh) as int,
                );
            }
            assert(q >= vstd::arithmetic::power2::pow2(23nat)) by {
                vstd::arithmetic::power2::lemma_pow2_adds(sh, 23nat);
                vstd::arithmetic::div_mod::lemma_div_is_ordered(
                    vstd::arithmetic::power2::pow2(e) as int,
                    m as int,
                    vstd::arithmetic::power2::pow2(sh) as int,
                );
                vstd::arithmetic::div_mod::lemma_div_multiples_vanish(
                    vstd::arithmetic::power2::pow2(23nat) as int,
                    vstd::arithmetic::power2::pow2(sh) as int,
                );
            }
            if q1 == vstd::arithmetic::power2::pow2(24nat) {
                let bb = (sign * 0x80000000 + (e + 1 + 127) * p23) as u32;
                assert(spec_f32_bits_of_i32(i) == bb);
                lemma_exponent_field(sign, (e + 1 + 127) as int, 0);
            } else {
                let bb = (sign * 0x80000000 + (e + 127) * p23 + (q1 - p23)) as u32;
                assert(spec_f32_bits_of_i32(i) == bb);
                lemma_exponent_field(sign, (e + 127) as int, (q1 - p23) as int);
            }
        }
    }
}

/// The exponent field of an assembled pattern is its exponent summand, so
/// a bounded exponent can never read as all ones.
proof fn lemma_exponent_field(sign: int, ee: int, frac: int)
    requires
        0 <= sign <= 1,
        0 <= ee <= 254,
        0 <= frac < 0x800000,
    ensures
        !crate::numbits::spec_f32_is_nan((sign * 0x80000000 + ee * 0x800000 + frac) as u32),
{
    let s = sign as u32;
    let e = ee as u32;
    let f = frac as u32;
    assert(s <= 1 && e <= 254 && f < 0x800000 ==> ((((s * 0x80000000 + e * 0x800000
        + f) as u32) >> 23) & 0xff) != 0xff) by (bit_vector);
    assert((sign * 0x80000000 + ee * 0x800000 + frac) as u32 == (s * 0x80000000 + e
        * 0x800000 + f) as u32);
}

/// IEEE-754 equality of patterns is transitive through a shared pattern.
proof fn lemma_f32_eq_trans(bits: u32, a: u32, b: u32)
    requires
        spec_f32_eq(bits, a),
        spec_f32_eq(bits, b),
    ensures
        spec_f32_eq(a, b),
{
}

/// Registering one leaf keeps an established constant hit.
proof fn lemma_leaf_keeps_c_hit(g1: GraphV, u: UgenV, bits: u32, c: NodeCV)
    requires
        spec_leafy(u),
        c_hit(g1, bits, c),
        !crate::numbits::spec_f32_is_nan(bits),
    ensures
        c_hit(spec_mk_node(u, g1).1, bits, c),
{
    match u {
        UgenV::IConst { value } => {
            lemma_bits_of_i32_not_nan(value);
            lemma_push_keeps_c_hit(g1, spec_leaf_bits(u), bits, c);
            assert(spec_mk_node(u, g1) == spec_mk_node_c(spec_leaf_bits(u), g1));
        },
        UgenV::FConst { .. } => {
            lemma_push_keeps_c_hit(g1, spec_leaf_bits(u), bits, c);
            assert(spec_mk_node(u, g1) == spec_mk_node_c(spec_leaf_bits(u), g1));
        },
        UgenV::Control { name, index, rate } => {
            assert(spec_mk_node(u, g1).1.constants == g1.constants);
        },
        _ => {},
    }
}

/// Registering a constant keeps an established constant hit: either the
/// search hit and nothing changed, or the pushed value cannot equal the
/// established one, so the search just shifts past it.
proof fn lemma_push_keeps_c_hit(g1: GraphV, bits2: u32, bits: u32, c: NodeCV)
    requires
        c_hit(g1, bits, c),
        !crate::numbits::spec_f32_is_nan(bits2),
    ensures
        c_hit(spec_mk_node_c(bits2, g1).1, bits, c),
{
    let k2 = spec_find_c(g1.constants, bits2);
    lemma_find_c(g1.constants, bits2);
    lemma_find_c(g1.constants, bits);
    if k2 < 0 {
        let node = NodeCV { id: g1.next_id + 1, bits: bits2 };
        let cs2 = spec_mk_node_c(bits2, g1).1.constants;
        assert(cs2 == seq![node] + g1.constants);
        if spec_f32_eq(bits, node.bits) {
            assert(spec_f32_eq(bits, c.bits));
            lemma_f32_eq_trans(bits, node.bits, c.bits);
            assert(spec_f32_eq(bits2, c.bits));
            let r = spec_find_c(g1.constants, bits);
            assert(g1.constants[r] == c);
            assert(spec_f32_eq(bits2, (g1.constants[r]).bits));
            assert(false);
        }
        assert(cs2[0] == node);
        assert(cs2.drop_first() =~= g1.constants);
        assert(spec_find_c(cs2, bits) == 1 + spec_find_c(g1.constants, bits));
    }
}

/// Registering one leaf keeps an established control hit.
proof fn lemma_leaf_keeps_k_hit(g1: GraphV, u: UgenV, name: Seq<char>, kk: NodeKV)
    requires
        spec_leafy(u),
        k_hit(g1, name, kk),
    ensures
        k_hit(spec_mk_node(u, g1).1, name, kk),
{
    match u {
        UgenV::Control { name: n2, index, rate } => {
            let k2 = spec_find_k(g1.controls, n2);
            lemma_find_k(g1.controls, n2);
            lemma_find_k(g1.controls, name);
            if k2 < 0 {
                let node = NodeKV { id: g1.next_id + 1, name: n2, rate, def: index };
                let ks2 = spec_mk_node(u, g1).1.controls;
                assert(ks2 == seq![node] + g1.controls);
                if name == node.name {
                    let r = spec_find_k(g1.controls, name);
                    assert(g1.controls[r] == kk);
                    assert(name == (g1.controls[r]).name);
                    assert(n2 == (g1.controls[r]).name);
                    assert(false);
                }
                assert(ks2[0] == node);
                assert(ks2.drop_first() =~= g1.controls);
                assert(spec_find_k(ks2, name) == 1 + spec_find_k(g1.controls, name));
            }
        },
        _ => {
            assert(spec_mk_node(u, g1).1.controls == g1.controls);
        },
    }
}

/// Compiling a leaf yields a node its own search now lands on.
proof fn lemma_leaf_self_hit(u: UgenV, g: GraphV)
    requires
        spec_leafy(u),
    ensures
        leaf_hits(spec_mk_node(u, g).1, u, spec_mk_node(u, g).0),
        spec_mk_node(u, g).1.ugens == g.ugens,
{
    match u {
        UgenV::IConst { value } => {
            lemma_bits_of_i32_not_nan(value);
            lemma_c_self_hit(spec_leaf_bits(u), g);
        },
        UgenV::FConst { .. } => {
            lemma_c_self_hit(spec_leaf_bits(u), g);
        },
        UgenV::Control { name, index, rate } => {
            let k = spec_find_k(g.controls, name);
            lemma_find_k(g.controls, name);
            if k < 0 {
                let node = NodeKV { id: g.next_id + 1, name, rate, def: index };
                let ks2 = spec_mk_node(u, g).1.controls;
                assert(ks2[0] == node);
                assert(spec_find_k(ks2, name) == 0);
            }
        },
        _ => {},
    }
}

/// Registering a non-NaN constant value makes its search land on the
/// returned node.
proof fn lemma_c_self_hit(bits: u32, g: GraphV)
    requires
        !crate::numbits::spec_f32_is_nan(bits),
    ensures
        spec_mk_node_c(bits, g).0 is NodeC && c_hit(
            spec_mk_node_c(bits, g).1,
            bits,
            spec_mk_node_c(bits, g).0->NodeC_0,
        ),
{
    let k = spec_find_c(g.constants, bits);
    lemma_find_c(g.constants, bits);
    if k < 0 {
        let node = NodeCV { id: g.next_id + 1, bits };
        let cs2 = spec_mk_node_c(bits, g).1.constants;
        assert(cs2[0] == node);
        assert(spec_find_c(cs2, bits) == 0);
    }
}

/// Compiling a list of leaves touches only the constant and control
/// tables, and afterwards every collected node is what its leaf's search
/// lands on.
proof fn lemma_acc_leafy(l: Seq<UgenV>, n: int, g: GraphV)
    requires
        spec_leafy_list(l),
        n <= l.len(),
    ensures
        spec_acc(l, n, g).1.ugens == g.ugens,
        spec_acc(l, n, g).0.len() == (if n <= 0 { 0int } else { n }),
        forall|i: int|
            0 <= i < n ==> leaf_hits(
                spec_acc(l, n, g).1,
                l[i],
                #[trigger] spec_acc(l, n, g).0[i],
            ),
    decreases n,
{
    if 0 < n <= l.len() {
        lemma_acc_leafy(l, n - 1, g);
        let (ns, g1) = spec_acc(l, n - 1, g);
        assert(spec_leafy(l[n - 1]));
        lemma_leaf_self_hit(l[n - 1], g1);
        let (nd, g2) = spec_mk_node(l[n - 1], g1);
        assert forall|i: int|
            0 <= i < n implies leaf_hits(g2, l[i], #[trigger] spec_acc(l, n, g).0[i]) by {
            if i < n - 1 {
                assert(spec_acc(l, n, g).0[i] == ns[i]);
                assert(leaf_hits(g1, l[i], ns[i]));
                match l[i] {
                    UgenV::IConst { .. } => {
                        lemma_bits_of_i32_not_nan(l[i]->IConst_value);
                        lemma_leaf_keeps_c_hit(
                            g1,
                            l[n - 1],
                            spec_leaf_bits(l[i]),
                            ns[i]->NodeC_0,
                        );
                    },
                    UgenV::FConst { .. } => {
                        lemma_leaf_keeps_c_hit(
                            g1,
                            l[n - 1],
                            spec_leaf_bits(l[i]),
                            ns[i]->NodeC_0,
                        );
                    },
                    UgenV::Control { name, .. } => {
                        lemma_leaf_keeps_k_hit(g1, l[n - 1], name, ns[i]->NodeK_0);
                    },
                    _ => {},
                }
            } else {
                assert(spec_acc(l, n, g).0[i] == nd);
            }
        }
    }
}

/// Compiling a list of leaves a second time against the resulting graph
/// finds every node again and changes nothing.
proof fn lemma_acc_leafy_again(l: Seq<UgenV>, n: int, g1: GraphV, ns0: Seq<NodeV>)
    requires
        spec_leafy_list(l),
        n <= l.len(),
        n <= ns0.len(),
        forall|i: int| 0 <= i < n ==> leaf_hits(g1, l[i], #[trigger] ns0[i]),
    ensures
        spec_acc(l, n, g1).1 == g1,
        spec_acc(l, n, g1).0 =~= ns0.subrange(0, if n <= 0 { 0int } else { n }),
    decreases n,
{
    if 0 < n <= l.len() {
        lemma_acc_leafy_again(l, n - 1, g1, ns0);
        assert(spec_leafy(l[n - 1]));
        assert(leaf_hits(g1, l[n - 1], ns0[n - 1]));
        match l[n - 1] {
            UgenV::IConst { .. } => {
                lemma_find_c(g1.constants, spec_leaf_bits(l[n - 1]));
                assert(spec_mk_node(l[n - 1], g1) == (ns0[n - 1], g1));
            },
            UgenV::FConst { .. } => {
                lemma_find_c(g1.constants, spec_leaf_bits(l[n - 1]));
                assert(spec_mk_node(l[n - 1], g1) == (ns0[n - 1], g1));
            },
            UgenV::Control { name, .. } => {
                lemma_find_k(g1.controls, name);
                assert(spec_mk_node(l[n - 1], g1) == (ns0[n - 1], g1));
            },
            _ => {},
        }
        assert(ns0.subrange(0, n) =~= ns0.subrange(0, n - 1).push(ns0[n - 1]));
    }
}

/// Every port reference compares equal to itself.
proof fn lemma_ports_refl(ns: Seq<NodeV>)
    ensures
        ugens_eq(
            Seq::new(ns.len(), |i: int| spec_as_from_port(ns[i])),
            Seq::new(ns.len(), |i: int| spec_as_from_port(ns[i])),
        ),
{
    let ports = Seq::new(ns.len(), |i: int| spec_as_from_port(ns[i]));
    assert forall|i: int| 0 <= i < ports.len() implies ugen_eq(#[trigger] ports[i], ports[i]) by {
        match spec_as_from_port(ns[i]) {
            UgenV::FromPortC { .. } => {},
            UgenV::FromPortK { .. } => {},
            UgenV::FromPortU { .. } => {},
            _ => {},
        }
    }
}

/// Compiling the same primitive twice registers one operation node: when
/// its inputs are constant and control leaves, the second compilation
/// returns the same node and leaves the graph unchanged.
pub proof fn lemma_mk_node_u_dedup(p: PrimitiveV, g: GraphV)
    requires
        spec_leafy_list(p.inputs),
    ensures
        spec_mk_node_u(p, spec_mk_node_u(p, g).1) == (
            spec_mk_node_u(p, g).0,
            spec_mk_node_u(p, g).1,
        ),
{
    let nn = p.inputs.len() as int;
    let (ns, gk) = spec_acc(p.inputs, nn, g);
    lemma_acc_leafy(p.inputs, nn, g);
    let inputs2 = Seq::new(ns.len(), |i: int| spec_as_from_port(ns[i]));
    let k = spec_find_u(gk.ugens, p.rate, p.name, inputs2, p.outputs, p.index, p.special);
    lemma_find_u(gk.ugens, p.rate, p.name, inputs2, p.outputs, p.index, p.special);
    let (n1, g1) = spec_mk_node_u(p, g);
    // the hit facts carry to the final graph, whose leaf tables are those
    // of the graph after the inputs
    assert(g1.constants == gk.constants && g1.controls == gk.controls);
    assert forall|i: int| 0 <= i < nn implies leaf_hits(g1, p.inputs[i], #[trigger] ns[i]) by {
        assert(leaf_hits(gk, p.inputs[i], ns[i]));
        match p.inputs[i] {
            UgenV::IConst { .. } => {},
            UgenV::FConst { .. } => {},
            UgenV::Control { .. } => {},
            _ => {},
        }
    }
    lemma_acc_leafy_again(p.inputs, nn, g1, ns);
    let (ns2, gk2) = spec_acc(p.inputs, nn, g1);
    assert(gk2 == g1);
    assert(ns2 =~= ns.subrange(0, nn));
    assert(ns.subrange(0, nn) =~= ns);
    let inputs2b = Seq::new(ns2.len(), |i: int| spec_as_from_port(ns2[i]));
    assert(inputs2b =~= inputs2);
    if k >= 0 {
        assert(g1 == gk);
        assert(spec_mk_node_u(p, g1) == (n1, g1));
    } else {
        let node = NodeUV {
            id: gk.next_id + 1,
            name: p.name,
            rate: p.rate,
            inputs: inputs2,
            outputs: p.outputs,
            special: p.special,
            ugen_id: p.index,
        };
        assert(g1.ugens == seq![node] + gk.ugens);
        assert(g1.ugens[0] == node);
        lemma_ports_refl(ns);
        assert(spec_u_matches(node, p.rate, p.name, inputs2, p.outputs, p.index, p.special));
        assert(spec_find_u(g1.ugens, p.rate, p.name, inputs2, p.outputs, p.index, p.special)
            == 0);
        lemma_find_u(g1.ugens, p.rate, p.name, inputs2, p.outputs, p.index, p.special);
        assert(spec_mk_node_u(p, g1) == (NodeV::NodeU(node), g1));
        assert(n1 == NodeV::NodeU(node));
    }
}

} // verus!
