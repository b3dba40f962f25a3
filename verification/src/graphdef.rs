//! The synth-definition encoder: serializes a compiled graph to the fixed
//! binary layout the rendering engine consumes. Everything is big-endian;
//! names are Pascal strings; node ids are translated to positions through
//! the per-category id lists built once per graph.

use vstd::prelude::*;

use crate::graph::Graph;
use crate::graph::GraphV;
use crate::graph::NodeKV;
use crate::graph::NodeUV;
use crate::graph::lemma_view_nodecs_prefix;
use crate::graph::lemma_view_nodeks_prefix;
use crate::graph::lemma_view_nodeus_prefix;
use crate::numbits::spec_f32_bits_of_i32;
use crate::numbits::f32_bits_of_i32;
use crate::osc::spec_encode_i8;
use crate::osc::spec_encode_i16;
use crate::osc::spec_encode_i32;
use crate::osc::spec_encode_u32;
use crate::osc::spec_encode_str;
use crate::osc::spec_pstr;
use crate::osc::encode_i8;
use crate::osc::encode_i16;
use crate::osc::encode_i32;
use crate::osc::encode_f32;
use crate::osc::encode_str;
use crate::osc::str_pstr;
use crate::sc3::Ugen;
use crate::sc3::UgenV;
use crate::sc3::spec_rate_id;
use crate::sc3::rate_id;
use crate::sc3::lemma_view_ugens_prefix;

verus! {

/// A resolved wire input: the source table (`-1` constants, `0` the
/// implicit control node, positive an operation-node position) and the
/// port within it.
pub struct Input {
    pub u: i32,
    pub p: i32,
}

/// The three ordered id lists that translate node ids into positions.
pub struct MMap {
    pub cs: Vec<i32>,
    pub ks: Vec<i32>,
    pub us: Vec<i32>,
}

/// The constant id list of a graph, in table order.
pub open spec fn spec_map_cs(g: GraphV) -> Seq<int> {
    Seq::new(g.constants.len(), |i: int| g.constants[i].id)
}

/// The control id list of a graph, in table order.
pub open spec fn spec_map_ks(g: GraphV) -> Seq<int> {
    Seq::new(g.controls.len(), |i: int| g.controls[i].id)
}

/// The operation-node id list of a graph, in table order.
pub open spec fn spec_map_us(g: GraphV) -> Seq<int> {
    Seq::new(g.ugens.len(), |i: int| g.ugens[i].id)
}

/// Builds the id lists of a graph.
pub fn mk_map(gr1: &Graph) -> (mp: MMap)
    ensures
        mp.cs@.map_values(|x: i32| x as int) == spec_map_cs(gr1@),
        mp.ks@.map_values(|x: i32| x as int) == spec_map_ks(gr1@),
        mp.us@.map_values(|x: i32| x as int) == spec_map_us(gr1@),
{
    proof {
        lemma_view_nodecs_prefix(gr1.constants, gr1.constants.len() as int);
        lemma_view_nodeks_prefix(gr1.controls, gr1.controls.len() as int);
        lemma_view_nodeus_prefix(gr1.ugens, gr1.ugens.len() as int);
    }
    let mut cs: Vec<i32> = Vec::new();
    let mut i: usize = 0;
    while i < gr1.constants.len()
        invariant
            i <= gr1.constants.len(),
            cs@.len() == i,
            gr1@.constants.len() == gr1.constants.len(),
            forall|j: int| 0 <= j < gr1.constants.len() ==> gr1@.constants[j]
                == gr1.constants[j]@,
            forall|j: int| 0 <= j < i ==> cs@[j] as int == gr1@.constants[j].id,
        decreases gr1.constants.len() - i,
    {
        cs.push(gr1.constants[i].id);
        i = i + 1;
    }
    let mut ks: Vec<i32> = Vec::new();
    let mut k: usize = 0;
    while k < gr1.controls.len()
        invariant
            k <= gr1.controls.len(),
            ks@.len() == k,
            gr1@.controls.len() == gr1.controls.len(),
            forall|j: int| 0 <= j < gr1.controls.len() ==> gr1@.controls[j]
                == gr1.controls[j]@,
            forall|j: int| 0 <= j < k ==> ks@[j] as int == gr1@.controls[j].id,
        decreases gr1.controls.len() - k,
    {
        ks.push(gr1.controls[k].id);
        k = k + 1;
    }
    let mut us: Vec<i32> = Vec::new();
    let mut m: usize = 0;
    while m < gr1.ugens.len()
        invariant
            m <= gr1.ugens.len(),
            us@.len() == m,
            gr1@.ugens.len() == gr1.ugens.len(),
            forall|j: int| 0 <= j < gr1.ugens.len() ==> gr1@.ugens[j] == gr1.ugens[j]@,
            forall|j: int| 0 <= j < m ==> us@[j] as int == gr1@.ugens[j].id,
        decreases gr1.ugens.len() - m,
    {
        us.push(gr1.ugens[m].id);
        m = m + 1;
    }
    let mp = MMap { cs, ks, us };
    proof {
        assert(mp.cs@.map_values(|x: i32| x as int) =~= spec_map_cs(gr1@));
        assert(mp.ks@.map_values(|x: i32| x as int) =~= spec_map_ks(gr1@));
        assert(mp.us@.map_values(|x: i32| x as int) =~= spec_map_us(gr1@));
    }
    mp
}

/// The position of the first occurrence of `val` in a list, or `-1` when
/// absent. An absent id would mark an inconsistent graph, and the callers
/// exclude it.
pub open spec fn spec_fetch(val: int, lst: Seq<int>) -> int
    decreases lst.len(),
{
    if lst.len() == 0 {
        -1
    } else if lst[0] == val {
        0
    } else {
        let r = spec_fetch(val, lst.drop_first());
        if r < 0 {
            -1
        } else {
            r + 1
        }
    }
}

/// What `spec_fetch` returns: the first occurrence, or `-1`.
pub proof fn lemma_fetch(val: int, lst: Seq<int>)
    ensures
        spec_fetch(val, lst) == -1 ==> forall|i: int| 0 <= i < lst.len() ==> val != #[trigger] lst[i],
        spec_fetch(val, lst) != -1 ==> {
            let r = spec_fetch(val, lst);
            &&& 0 <= r < lst.len()
            &&& lst[r] == val
            &&& forall|i: int| 0 <= i < r ==> val != #[trigger] lst[i]
        },
    decreases lst.len(),
{
    if lst.len() > 0 && lst[0] != val {
        lemma_fetch(val, lst.drop_first());
        assert(forall|i: int| 1 <= i < lst.len() ==> #[trigger] lst[i] == lst.drop_first()[i - 1]);
    }
}

/// Returns the position of an id in a list, or `-1` when absent.
#[verifier::loop_isolation(false)]
pub fn fetch(val: i32, lst: &Vec<i32>) -> (r: i32)
    requires
        lst@.len() <= i32::MAX,
    ensures
        r as int == spec_fetch(val as int, lst@.map_values(|x: i32| x as int)),
{
    let ghost lv = lst@.map_values(|x: i32| x as int);
    proof {
        lemma_fetch(val as int, lv);
    }
    let mut i: usize = 0;
    while i < lst.len()
        invariant
            i <= lst.len(),
            forall|j: int| 0 <= j < i ==> val as int != #[trigger] lv[j],
        decreases lst.len() - i,
    {
        if lst[i] == val {
            proof {
                assert(lv[i as int] == val as int);
                assert(spec_fetch(val as int, lv) == i as int);
            }
            return i as i32;
        }
        i = i + 1;
    }
    proof {
        assert(spec_fetch(val as int, lv) == -1);
    }
    -1
}

/// Whether a port reference resolves against the id lists.
pub open spec fn spec_input_resolves(g: GraphV, f: UgenV) -> bool {
    match f {
        UgenV::FromPortC { nid } => spec_fetch(nid, spec_map_cs(g)) >= 0,
        UgenV::FromPortK { nid } => spec_fetch(nid, spec_map_ks(g)) >= 0,
        UgenV::FromPortU { nid, .. } => spec_fetch(nid, spec_map_us(g)) >= 0,
        _ => false,
    }
}

/// The wire input of a resolved port reference: constants map to table
/// `-1`, controls to the implicit node `0`, operation nodes to their
/// position, each with the port index the reference carries.
pub open spec fn spec_mk_input(g: GraphV, f: UgenV) -> (int, int) {
    match f {
        UgenV::FromPortC { nid } => (-1, spec_fetch(nid, spec_map_cs(g))),
        UgenV::FromPortK { nid } => (0, spec_fetch(nid, spec_map_ks(g))),
        UgenV::FromPortU { nid, pidx } => (spec_fetch(nid, spec_map_us(g)), pidx),
        _ => (-1, -1),
    }
}

/// Resolves a port reference to its wire input. A reference whose id is
/// not in the graph would mark an internal compiler inconsistency and is
/// excluded here rather than encoded.
pub fn mk_input(mp: &MMap, ghost_g: Ghost<GraphV>, fp: &Ugen) -> (r: Input)
    requires
        mp.cs@.map_values(|x: i32| x as int) == spec_map_cs(ghost_g@),
        mp.ks@.map_values(|x: i32| x as int) == spec_map_ks(ghost_g@),
        mp.us@.map_values(|x: i32| x as int) == spec_map_us(ghost_g@),
        mp.cs@.len() <= i32::MAX,
        mp.ks@.len() <= i32::MAX,
        mp.us@.len() <= i32::MAX,
        spec_input_resolves(ghost_g@, fp@),
    ensures
        r.u as int == spec_mk_input(ghost_g@, fp@).0,
        r.p as int == spec_mk_input(ghost_g@, fp@).1,
{
    match fp {
        Ugen::FromPortC(fc) => Input { u: -1, p: fetch(fc.port_nid, &mp.cs) },
        Ugen::FromPortK(fk) => Input { u: 0, p: fetch(fk.port_nid, &mp.ks) },
        Ugen::FromPortU(fu) => Input { u: fetch(fu.port_nid, &mp.us), p: fu.port_idx },
        _ => vstd::pervasive::unreached(),
    }
}

/// Appends all of `src` to `dst`.
fn append_bytes(dst: &mut Vec<u8>, src: &Vec<u8>)
    ensures
        final(dst)@ == old(dst)@ + src@,
{
    let mut k: usize = 0;
    while k < src.len()
        invariant
            k <= src.len(),
            dst@ =~= old(dst)@ + src@.subrange(0, k as int),
        decreases src.len() - k,
    {
        dst.push(src[k]);
        k = k + 1;
    }
    proof {
        assert(dst@ =~= old(dst)@ + src@);
    }
}

/// The wire bytes of one input: source table, then port.
pub open spec fn spec_encode_input(up: (int, int)) -> Seq<u8> {
    spec_encode_i16(up.0 as i32) + spec_encode_i16(up.1 as i32)
}

/// The wire bytes of a control-table entry: the Pascal name, then the
/// control's position in the id list.
pub open spec fn spec_encode_node_k(g: GraphV, node: NodeKV) -> Seq<u8> {
    spec_pstr(node.name) + spec_encode_i16(spec_fetch(node.id, spec_map_ks(g)) as i32)
}

/// The wire bytes of one operation node: Pascal name, rate, input count,
/// output count, special tag, each input as a resolved wire input, each
/// output as its rate byte.
pub open spec fn spec_encode_node_u(g: GraphV, node: NodeUV) -> Seq<u8> {
    spec_pstr(node.name) + spec_encode_i8(spec_rate_id(node.rate)) + spec_encode_i16(
        node.inputs.len() as i32,
    ) + spec_encode_i16(node.outputs.len() as i32) + spec_encode_i16(node.special as i32)
        + spec_encode_inputs(g, node.inputs, node.inputs.len() as int) + spec_encode_outputs(
        node.outputs,
        node.outputs.len() as int,
    )
}

/// The concatenated wire inputs of the first `n` port references.
pub open spec fn spec_encode_inputs(g: GraphV, l: Seq<UgenV>, n: int) -> Seq<u8>
    decreases n,
{
    if n <= 0 || n > l.len() {
        Seq::empty()
    } else {
        spec_encode_inputs(g, l, n - 1) + spec_encode_input(spec_mk_input(g, l[n - 1]))
    }
}

/// The concatenated rate bytes of the first `n` output rates.
pub open spec fn spec_encode_outputs(l: Seq<crate::sc3::Rate>, n: int) -> Seq<u8>
    decreases n,
{
    if n <= 0 || n > l.len() {
        Seq::empty()
    } else {
        spec_encode_outputs(l, n - 1) + spec_encode_i8(spec_rate_id(l[n - 1]))
    }
}

/// The concatenated constant values of the first `n` constants, each a
/// big-endian float pattern.
pub open spec fn spec_encode_consts(g: GraphV, n: int) -> Seq<u8>
    decreases n,
{
    if n <= 0 || n > g.constants.len() {
        Seq::empty()
    } else {
        spec_encode_consts(g, n - 1) + spec_encode_u32(g.constants[n - 1].bits)
    }
}

/// The concatenated control defaults of the first `n` controls, each the
/// default promoted to a float pattern.
pub open spec fn spec_encode_kdefs(g: GraphV, n: int) -> Seq<u8>
    decreases n,
{
    if n <= 0 || n > g.controls.len() {
        Seq::empty()
    } else {
        spec_encode_kdefs(g, n - 1) + spec_encode_u32(spec_f32_bits_of_i32(g.controls[n - 1].def))
    }
}

/// The concatenated control-table entries of the first `n` controls.
pub open spec fn spec_encode_knames(g: GraphV, n: int) -> Seq<u8>
    decreases n,
{
    if n <= 0 || n > g.controls.len() {
        Seq::empty()
    } else {
        spec_encode_knames(g, n - 1) + spec_encode_node_k(g, g.controls[n - 1])
    }
}

/// The concatenated operation-node entries of the first `n` nodes.
pub open spec fn spec_encode_nodeus(g: GraphV, n: int) -> Seq<u8>
    decreases n,
{
    if n <= 0 || n > g.ugens.len() {
        Seq::empty()
    } else {
        spec_encode_nodeus(g, n - 1) + spec_encode_node_u(g, g.ugens[n - 1])
    }
}

/// Whether the machine widths of a graph fit the wire format: every name
/// fits a Pascal string and every table and port count fits its field.
pub open spec fn spec_graph_sizes_ok(g: GraphV) -> bool {
    &&& g.constants.len() <= i32::MAX
    &&& g.controls.len() <= i32::MAX
    &&& g.ugens.len() <= i32::MAX
    &&& (forall|i: int|
        0 <= i < g.controls.len() ==> spec_encode_str((#[trigger] g.controls[i]).name).len()
            <= 255)
    &&& (forall|i: int|
        0 <= i < g.ugens.len() ==> spec_encode_str((#[trigger] g.ugens[i]).name).len() <= 255)
    &&& (forall|i: int|
        0 <= i < g.ugens.len() ==> (#[trigger] g.ugens[i]).inputs.len() <= i32::MAX)
    &&& (forall|i: int|
        0 <= i < g.ugens.len() ==> (#[trigger] g.ugens[i]).outputs.len() <= i32::MAX)
    &&& (forall|i: int|
        0 <= i < g.ugens.len() ==> i32::MIN <= (#[trigger] g.ugens[i]).special <= i32::MAX)
}

/// Whether a graph can be encoded: its sizes fit the wire format and every
/// operation-node input is a port reference that resolves against the id
/// lists.
pub open spec fn spec_graph_encodable(g: GraphV) -> bool {
    &&& spec_graph_sizes_ok(g)
    &&& (forall|i: int, j: int|
        0 <= i < g.ugens.len() && 0 <= j < (#[trigger] g.ugens[i]).inputs.len()
            ==> spec_input_resolves(g, #[trigger] g.ugens[i].inputs[j]))
}

/// Encodes one wire input: source table, then port.
pub fn encode_input(inp: Input) -> (r: Vec<u8>)
    ensures
        r@ == spec_encode_input((inp.u as int, inp.p as int)),
{
    let mut out = encode_i16(inp.u);
    let t = encode_i16(inp.p);
    append_bytes(&mut out, &t);
    out
}

/// Encodes one control-table entry: Pascal name, then position.
pub fn encode_node_k(mp: &MMap, ghost_g: Ghost<GraphV>, node: &crate::graph::NodeK) -> (r: Vec<
    u8,
>)
    requires
        mp.ks@.map_values(|x: i32| x as int) == spec_map_ks(ghost_g@),
        mp.ks@.len() <= i32::MAX,
        spec_encode_str(node@.name).len() <= 255,
    ensures
        r@ == spec_encode_node_k(ghost_g@, node@),
{
    let mut out = str_pstr(&node.name);
    let id1 = fetch(node.id, &mp.ks);
    let t = encode_i16(id1);
    append_bytes(&mut out, &t);
    out
}

/// Encodes one operation node: Pascal name, rate, counts, special tag,
/// inputs, output rates.
#[verifier::loop_isolation(false)]
pub fn encode_node_u(mp: &MMap, ghost_g: Ghost<GraphV>, node: &crate::graph::NodeU) -> (r: Vec<
    u8,
>)
    requires
        mp.cs@.map_values(|x: i32| x as int) == spec_map_cs(ghost_g@),
        mp.ks@.map_values(|x: i32| x as int) == spec_map_ks(ghost_g@),
        mp.us@.map_values(|x: i32| x as int) == spec_map_us(ghost_g@),
        mp.cs@.len() <= i32::MAX,
        mp.ks@.len() <= i32::MAX,
        mp.us@.len() <= i32::MAX,
        spec_encode_str(node@.name).len() <= 255,
        forall|j: int|
            0 <= j < node@.inputs.len() ==> spec_input_resolves(
                ghost_g@,
                #[trigger] node@.inputs[j],
            ),
        node@.inputs.len() <= i32::MAX,
        node@.outputs.len() <= i32::MAX,
    ensures
        r@ == spec_encode_node_u(ghost_g@, node@),
{
    proof {
        lemma_view_ugens_prefix(node.inputs, node.inputs.len() as int);
    }
    let len1 = node.inputs.len();
    let len2 = node.outputs.len();
    let mut out = str_pstr(&node.name);
    let t1 = encode_i8(rate_id(node.rate));
    append_bytes(&mut out, &t1);
    let t2 = encode_i16(len1 as i32);
    append_bytes(&mut out, &t2);
    let t3 = encode_i16(len2 as i32);
    append_bytes(&mut out, &t3);
    let t4 = encode_i16(node.special);
    append_bytes(&mut out, &t4);
    let ghost head = spec_pstr(node@.name) + spec_encode_i8(spec_rate_id(node@.rate))
        + spec_encode_i16(node@.inputs.len() as i32) + spec_encode_i16(
        node@.outputs.len() as i32,
    ) + spec_encode_i16(node@.special as i32);
    proof {
        assert(out@ =~= head);
    }
    let mut j: usize = 0;
    while j < node.inputs.len()
        invariant
            j <= node.inputs.len(),
            out@ =~= head + spec_encode_inputs(ghost_g@, node@.inputs, j as int),
        decreases node.inputs.len() - j,
    {
        proof {
            assert(node@.inputs[j as int] == crate::sc3::view_ugen(*node.inputs@[j as int]));
            assert(spec_input_resolves(ghost_g@, node@.inputs[j as int]));
        }
        let inp = mk_input(mp, ghost_g, &*node.inputs[j]);
        let e = encode_input(inp);
        append_bytes(&mut out, &e);
        j = j + 1;
    }
    let mut k: usize = 0;
    while k < node.outputs.len()
        invariant
            k <= node.outputs.len(),
            out@ =~= head + spec_encode_inputs(
                ghost_g@,
                node@.inputs,
                node@.inputs.len() as int,
            ) + spec_encode_outputs(node@.outputs, k as int),
        decreases node.outputs.len() - k,
    {
        let e = encode_i8(rate_id(node.outputs[k]));
        append_bytes(&mut out, &e);
        k = k + 1;
    }
    proof {
        assert(out@ =~= spec_encode_node_u(ghost_g@, node@));
    }
    out
}

/// Encodes a whole graph to the synth-definition layout, as
/// `spec_encode_graphdef`.
#[verifier::loop_isolation(false)]
#[verifier::rlimit(50)]
pub fn encode_graphdef(name: &String, graph: &Graph) -> (r: Vec<u8>)
    requires
        spec_graph_encodable(graph@),
        spec_encode_str(name@).len() <= 255,
    ensures
        r@ == spec_encode_graphdef(name@, graph@),
{
    let ghost gv = graph@;
    proof {
        lemma_view_nodecs_prefix(graph.constants, graph.constants.len() as int);
        lemma_view_nodeks_prefix(graph.controls, graph.controls.len() as int);
        lemma_view_nodeus_prefix(graph.ugens, graph.ugens.len() as int);
    }
    let mm = mk_map(graph);
    proof {
        assert(mm.cs@.map_values(|x: i32| x as int).len() == mm.cs@.len());
        assert(mm.ks@.map_values(|x: i32| x as int).len() == mm.ks@.len());
        assert(mm.us@.map_values(|x: i32| x as int).len() == mm.us@.len());
    }
    let g: Ghost<GraphV> = Ghost(gv);
    let magic: String = "SCgf".to_owned();
    let mut out = encode_str(&magic);
    let t1 = encode_i32(0);
    append_bytes(&mut out, &t1);
    let t2 = encode_i16(1);
    append_bytes(&mut out, &t2);
    let t3 = str_pstr(name);
    append_bytes(&mut out, &t3);
    let t4 = encode_i16(graph.constants.len() as i32);
    append_bytes(&mut out, &t4);
    let ghost head1 = spec_encode_str("SCgf"@) + spec_encode_i32(0) + spec_encode_i16(1)
        + spec_pstr(name@) + spec_encode_i16(gv.constants.len() as i32);
    proof {
        assert(out@ =~= head1);
    }
    let mut i: usize = 0;
    while i < graph.constants.len()
        invariant
            i <= graph.constants.len(),
            out@ =~= head1 + spec_encode_consts(gv, i as int),
        decreases graph.constants.len() - i,
    {
        let e = encode_f32(graph.constants[i].bits);
        append_bytes(&mut out, &e);
        i = i + 1;
    }
    let t5 = encode_i16(graph.controls.len() as i32);
    append_bytes(&mut out, &t5);
    let ghost head2 = head1 + spec_encode_consts(gv, gv.constants.len() as int)
        + spec_encode_i16(gv.controls.len() as i32);
    proof {
        assert(out@ =~= head2);
    }
    let mut k: usize = 0;
    while k < graph.controls.len()
        invariant
            k <= graph.controls.len(),
            out@ =~= head2 + spec_encode_kdefs(gv, k as int),
        decreases graph.controls.len() - k,
    {
        let bits = f32_bits_of_i32(graph.controls[k].def);
        let e = encode_f32(bits);
        append_bytes(&mut out, &e);
        k = k + 1;
    }
    let t6 = encode_i16(graph.controls.len() as i32);
    append_bytes(&mut out, &t6);
    let ghost head3 = head2 + spec_encode_kdefs(gv, gv.controls.len() as int)
        + spec_encode_i16(gv.controls.len() as i32);
    proof {
        assert(out@ =~= head3);
    }
    let mut k2: usize = 0;
    while k2 < graph.controls.len()
        invariant
            k2 <= graph.controls.len(),
            out@ =~= head3 + spec_encode_knames(gv, k2 as int),
        decreases graph.controls.len() - k2,
    {
        proof {
            assert(gv.controls[k2 as int] == graph.controls[k2 as int]@);
        }
        let e = encode_node_k(&mm, g, &graph.controls[k2]);
        append_bytes(&mut out, &e);
        k2 = k2 + 1;
    }
    let t7 = encode_i16(graph.ugens.len() as i32);
    append_bytes(&mut out, &t7);
    let ghost head4 = head3 + spec_encode_knames(gv, gv.controls.len() as int)
        + spec_encode_i16(gv.ugens.len() as i32);
    proof {
        assert(out@ =~= head4);
    }
    let mut m: usize = 0;
    while m < graph.ugens.len()
        invariant
            m <= graph.ugens.len(),
            out@ =~= head4 + spec_encode_nodeus(gv, m as int),
        decreases graph.ugens.len() - m,
    {
        proof {
            assert(gv.ugens[m as int] == graph.ugens[m as int]@);
        }
        let e = encode_node_u(&mm, g, &graph.ugens[m]);
        append_bytes(&mut out, &e);
        m = m + 1;
    }
    proof {
        assert(out@ =~= spec_encode_graphdef(name@, gv));
    }
    out
}

/// Compiles a tree and encodes its graph as a synth-definition: the whole
/// pipeline behind one name. The caller owes only the machine limits; that
/// every port reference of the compiled graph resolves is the compiler's
/// own consistency and is proved here.
pub fn synthdef(name: &str, ugen: &Ugen) -> (r: Vec<u8>)
    requires
        crate::graph::spec_root_ok(ugen@),
        crate::graph::spec_compilable(crate::graph::spec_prepare_root(ugen@)),
        crate::graph::spec_ugen_size(crate::graph::spec_prepare_root(ugen@)) <= i32::MAX,
        spec_graph_sizes_ok(crate::graph::spec_synth(ugen@)),
        spec_encode_str(name@).len() <= 255,
    ensures
        r@ == spec_encode_graphdef(name@, crate::graph::spec_synth(ugen@)),
{
    proof {
        lemma_synth_resolves(ugen@);
    }
    let graph = crate::graph::synth(ugen);
    let name_string: String = name.to_owned();
    encode_graphdef(&name_string, &graph)
}

/// The whole synth-definition: magic, version, definition count, name,
/// then the constant, control and operation tables.
pub open spec fn spec_encode_graphdef(name: Seq<char>, g: GraphV) -> Seq<u8> {
    spec_encode_str("SCgf"@) + spec_encode_i32(0) + spec_encode_i16(1) + spec_pstr(name)
        + spec_encode_i16(g.constants.len() as i32) + spec_encode_consts(
        g,
        g.constants.len() as int,
    ) + spec_encode_i16(g.controls.len() as i32) + spec_encode_kdefs(g, g.controls.len() as int)
        + spec_encode_i16(g.controls.len() as i32) + spec_encode_knames(
        g,
        g.controls.len() as int,
    ) + spec_encode_i16(g.ugens.len() as i32) + spec_encode_nodeus(g, g.ugens.len() as int)
}

/// A port reference pointing at a node the graph holds resolves: the
/// position lookup finds its id.
pub proof fn lemma_present_resolves(g: GraphV, f: UgenV)
    requires
        crate::graph::port_present(g, f),
    ensures
        spec_input_resolves(g, f),
{
    match f {
        UgenV::FromPortC { nid } => {
            let k = choose|k: int|
                0 <= k < g.constants.len() && (#[trigger] g.constants[k]).id == nid;
            lemma_fetch(nid, spec_map_cs(g));
            assert(spec_map_cs(g)[k] == nid);
        },
        UgenV::FromPortK { nid } => {
            let k = choose|k: int|
                0 <= k < g.controls.len() && (#[trigger] g.controls[k]).id == nid;
            lemma_fetch(nid, spec_map_ks(g));
            assert(spec_map_ks(g)[k] == nid);
        },
        UgenV::FromPortU { nid, .. } => {
            let k = choose|k: int|
                0 <= k < g.ugens.len() && (#[trigger] g.ugens[k]).id == nid;
            lemma_fetch(nid, spec_map_us(g));
            assert(spec_map_us(g)[k] == nid);
        },
        _ => {},
    }
}

/// The compiler never hands the encoder a dangling reference: every input
/// of every operation node in a compiled graph resolves against the id
/// lists, so the encoder's not-found case cannot arise on compiler
/// output.
pub proof fn lemma_synth_resolves(u: UgenV)
    requires
        crate::graph::spec_compilable(crate::graph::spec_prepare_root(u)),
    ensures
        forall|i: int, j: int|
            0 <= i < crate::graph::spec_synth(u).ugens.len() && 0 <= j < (
            #[trigger] crate::graph::spec_synth(u).ugens[i]).inputs.len()
                ==> spec_input_resolves(
                crate::graph::spec_synth(u),
                #[trigger] crate::graph::spec_synth(u).ugens[i].inputs[j],
            ),
{
    crate::graph::lemma_synth_wf(u);
    let s = crate::graph::spec_synth(u);
    assert forall|i: int, j: int|
        0 <= i < s.ugens.len() && 0 <= j < (#[trigger] s.ugens[i]).inputs.len()
            implies spec_input_resolves(s, #[trigger] s.ugens[i].inputs[j]) by {
        lemma_present_resolves(s, s.ugens[i].inputs[j]);
    }
}

} // verus!
