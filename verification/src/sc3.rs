//! The unit-generator data model: rates, the `Ugen` expression tree, its
//! ghost view, and the structural equality that the graph compiler uses as
//! its deduplication key.

use vstd::prelude::*;

use crate::numbits::spec_f32_eq;
use crate::numbits::f32_bits_eq;

verus! {

/// The update-frequency domain of a signal. The wire encoding and the
/// ordering used by maximum-rate computations follow `rate_id`.
#[derive(Clone, Copy, PartialEq, Eq, Structural, Debug)]
pub enum Rate {
    RateIr,
    RateKr,
    RateAr,
    RateDr,
}

pub type UgenList = Vec<Box<Ugen>>;

pub type RateList = Vec<Rate>;

/// An integer literal constant.
#[derive(Clone, Debug)]
pub struct IConst {
    pub value: i32,
}

/// A float literal constant, carried as its IEEE-754 bit pattern.
#[derive(Clone, Debug)]
pub struct FConst {
    pub bits: u32,
}

/// A named external input parameter. `index` is its declared position among
/// controls at tree-construction time, not a graph id.
#[derive(Clone, Debug)]
pub struct Control {
    pub name: String,
    pub index: i32,
    pub rate: Rate,
}

/// A generic operation node: a name that maps to an engine operation, input
/// sub-trees, one output rate per output, an operation-specific `special`
/// tag, an identity-disambiguating `index` (0 for structurally-dedupable
/// nodes), and the node's own rate.
#[derive(Debug)]
pub struct Primitive {
    pub name: String,
    pub inputs: UgenList,
    pub outputs: RateList,
    pub special: i32,
    pub index: i32,
    pub rate: Rate,
}

/// An unexpanded multi-channel bundle: parallel channels, not a single value.
#[derive(Debug)]
pub struct Mce {
    pub ugens: UgenList,
}

/// Evaluate both sides, but the tree's value is `left`; used to graft
/// auxiliary nodes onto a result without altering its apparent shape.
#[derive(Debug)]
pub struct Mrg {
    pub left: Box<Ugen>,
    pub right: Box<Ugen>,
}

/// A reference to one numbered output of a multi-output primitive, produced
/// by the proxify step.
#[derive(Debug)]
pub struct Proxy {
    pub primitive: Primitive,
    pub index: i32,
}

/// A resolved reference to a constant-table node of the compiled graph.
#[derive(Clone, Debug)]
pub struct FromPortC {
    pub port_nid: i32,
}

/// A resolved reference to a control-table node of the compiled graph.
#[derive(Clone, Debug)]
pub struct FromPortK {
    pub port_nid: i32,
}

/// A resolved reference to an output port of an operation node of the
/// compiled graph.
#[derive(Clone, Debug)]
pub struct FromPortU {
    pub port_nid: i32,
    pub port_idx: i32,
}

/// The closed union of tree shapes. `FromPort` variants are produced only by
/// the graph compiler, never built directly by callers.
#[derive(Debug)]
pub enum Ugen {
    IConst(IConst),
    FConst(FConst),
    Control(Control),
    Primitive(Primitive),
    Mce(Mce),
    Mrg(Mrg),
    Proxy(Proxy),
    FromPortC(FromPortC),
    FromPortK(FromPortK),
    FromPortU(FromPortU),
}

/// The mathematical view of a `Primitive`.
pub struct PrimitiveV {
    pub name: Seq<char>,
    pub inputs: Seq<UgenV>,
    pub outputs: Seq<Rate>,
    pub special: int,
    pub index: int,
    pub rate: Rate,
}

/// The mathematical view of a `Ugen` tree.
pub enum UgenV {
    IConst { value: int },
    FConst { bits: u32 },
    Control { name: Seq<char>, index: int, rate: Rate },
    Primitive { prim: PrimitiveV },
    Mce { channels: Seq<UgenV> },
    Mrg { left: Box<UgenV>, right: Box<UgenV> },
    Proxy { primitive: PrimitiveV, index: int },
    FromPortC { nid: int },
    FromPortK { nid: int },
    FromPortU { nid: int, pidx: int },
}

/// The views of the first `n` elements of a list of sub-trees.
pub open spec fn view_ugens_prefix(l: UgenList, n: int) -> Seq<UgenV>
    decreases l, n,
{
    if n <= 0 || n > l.len() {
        Seq::empty()
    } else {
        view_ugens_prefix(l, n - 1).push(view_ugen(*l[n - 1]))
    }
}

/// The views of a list of sub-trees.
pub open spec fn view_ugens(l: UgenList) -> Seq<UgenV> {
    view_ugens_prefix(l, l.len() as int)
}

/// The view of a `Primitive`.
pub open spec fn view_primitive(p: Primitive) -> PrimitiveV
    decreases p, 1int,
{
    PrimitiveV {
        name: p.name@,
        inputs: view_ugens_prefix(p.inputs, p.inputs.len() as int),
        outputs: p.outputs@,
        special: p.special as int,
        index: p.index as int,
        rate: p.rate,
    }
}

/// The view of a `Ugen` tree.
pub open spec fn view_ugen(u: Ugen) -> UgenV
    decreases u, 2int,
{
    match u {
        Ugen::IConst(c) => UgenV::IConst { value: c.value as int },
        Ugen::FConst(c) => UgenV::FConst { bits: c.bits },
        Ugen::Control(c) => UgenV::Control {
            name: c.name@,
            index: c.index as int,
            rate: c.rate,
        },
        Ugen::Primitive(p) => UgenV::Primitive {
            prim: PrimitiveV {
                name: p.name@,
                inputs: view_ugens_prefix(p.inputs, p.inputs.len() as int),
                outputs: p.outputs@,
                special: p.special as int,
                index: p.index as int,
                rate: p.rate,
            },
        },
        Ugen::Mce(m) => UgenV::Mce { channels: view_ugens_prefix(m.ugens, m.ugens.len() as int) },
        Ugen::Mrg(m) => UgenV::Mrg {
            left: Box::new(view_ugen(*m.left)),
            right: Box::new(view_ugen(*m.right)),
        },
        Ugen::Proxy(p) => UgenV::Proxy {
            primitive: PrimitiveV {
                name: p.primitive.name@,
                inputs: view_ugens_prefix(p.primitive.inputs, p.primitive.inputs.len() as int),
                outputs: p.primitive.outputs@,
                special: p.primitive.special as int,
                index: p.primitive.index as int,
                rate: p.primitive.rate,
            },
            index: p.index as int,
        },
        Ugen::FromPortC(f) => UgenV::FromPortC { nid: f.port_nid as int },
        Ugen::FromPortK(f) => UgenV::FromPortK { nid: f.port_nid as int },
        Ugen::FromPortU(f) => UgenV::FromPortU {
            nid: f.port_nid as int,
            pidx: f.port_idx as int,
        },
    }
}

impl View for Ugen {
    type V = UgenV;

    open spec fn view(&self) -> UgenV {
        view_ugen(*self)
    }
}

impl View for Primitive {
    type V = PrimitiveV;

    open spec fn view(&self) -> PrimitiveV {
        view_primitive(*self)
    }
}

pub broadcast proof fn lemma_view_ugens_prefix(l: UgenList, n: int)
    requires
        0 <= n <= l.len(),
    ensures
        (#[trigger] view_ugens_prefix(l, n)).len() == n,
        forall|i: int| 0 <= i < n ==> view_ugens_prefix(l, n)[i] == view_ugen(*l[i]),
    decreases n,
{
    if n > 0 {
        lemma_view_ugens_prefix(l, n - 1);
    }
}

/// Pointwise structural equality of two channel or input lists.
pub open spec fn ugens_eq(a: Seq<UgenV>, b: Seq<UgenV>) -> bool
    decreases a,
{
    a.len() == b.len() && (forall|i: int|
        0 <= i < a.len() ==> ugen_eq(#[trigger] a[i], b[i]))
}

/// Structural equality of two primitives: same name, index, special and
/// rate, identical output-rate sequences, and pairwise-equal inputs.
pub open spec fn prim_eq(a: PrimitiveV, b: PrimitiveV) -> bool
    decreases a,
{
    &&& a.name == b.name
    &&& a.index == b.index
    &&& a.special == b.special
    &&& spec_rate_id(a.rate) == spec_rate_id(b.rate)
    &&& a.outputs.len() == b.outputs.len()
    &&& (forall|i: int|
        0 <= i < a.outputs.len() ==> spec_rate_id(#[trigger] a.outputs[i]) == spec_rate_id(
            b.outputs[i],
        ))
    &&& ugens_eq(a.inputs, b.inputs)
}

/// Deep structural equality over the union: the deduplication key of the
/// graph compiler. Rates compare by their integer encoding; float constants
/// compare as IEEE-754 values of their bit patterns; mismatched variants are
/// always unequal.
pub open spec fn ugen_eq(a: UgenV, b: UgenV) -> bool
    decreases a,
{
    match (a, b) {
        (UgenV::IConst { value: v1 }, UgenV::IConst { value: v2 }) => v1 == v2,
        (UgenV::FConst { bits: b1 }, UgenV::FConst { bits: b2 }) => spec_f32_eq(b1, b2),
        (
            UgenV::Control { name: n1, index: i1, rate: r1 },
            UgenV::Control { name: n2, index: i2, rate: r2 },
        ) => n1 == n2 && i1 == i2 && spec_rate_id(r1) == spec_rate_id(r2),
        (UgenV::Primitive { prim: p1 }, UgenV::Primitive { prim: p2 }) => prim_eq(p1, p2),
        (UgenV::Mce { channels: c1 }, UgenV::Mce { channels: c2 }) => ugens_eq(c1, c2),
        (
            UgenV::Mrg { left: l1, right: r1 },
            UgenV::Mrg { left: l2, right: r2 },
        ) => ugen_eq(*l1, *l2) && ugen_eq(*r1, *r2),
        (
            UgenV::Proxy { primitive: p1, index: i1 },
            UgenV::Proxy { primitive: p2, index: i2 },
        ) => i1 == i2 && prim_eq(p1, p2),
        (UgenV::FromPortC { nid: n1 }, UgenV::FromPortC { nid: n2 }) => n1 == n2,
        (UgenV::FromPortK { nid: n1 }, UgenV::FromPortK { nid: n2 }) => n1 == n2,
        (
            UgenV::FromPortU { nid: n1, pidx: p1 },
            UgenV::FromPortU { nid: n2, pidx: p2 },
        ) => n1 == n2 && p1 == p2,
        _ => false,
    }
}

/// The integer encoding of a rate, both its runtime tag and its wire value.
pub open spec fn spec_rate_id(rate: Rate) -> i32 {
    match rate {
        Rate::RateIr => 0,
        Rate::RateKr => 1,
        Rate::RateAr => 2,
        Rate::RateDr => 3,
    }
}

/// Returns the integer encoding of a rate.
pub fn rate_id(rate: Rate) -> (r: i32)
    ensures
        r == spec_rate_id(rate),
{
    match rate {
        Rate::RateIr => 0,
        Rate::RateKr => 1,
        Rate::RateAr => 2,
        Rate::RateDr => 3,
    }
}

/// Decides pointwise structural equality of two sub-tree lists.
pub fn compare_ugen_list(l1: &UgenList, l2: &UgenList) -> (r: bool)
    ensures
        r == ugens_eq(view_ugens(*l1), view_ugens(*l2)),
    decreases *l1, 0int,
{
    proof {
        lemma_view_ugens_prefix(*l1, l1.len() as int);
        lemma_view_ugens_prefix(*l2, l2.len() as int);
    }
    if l1.len() != l2.len() {
        return false;
    }
    let mut i: usize = 0;
    while i < l1.len()
        invariant
            i <= l1.len(),
            l1.len() == l2.len(),
            view_ugens(*l1).len() == l1.len(),
            view_ugens(*l2).len() == l2.len(),
            forall|j: int|
                0 <= j < i ==> ugen_eq(
                    #[trigger] view_ugens(*l1)[j],
                    view_ugens(*l2)[j],
                ),
            forall|j: int| 0 <= j < l1.len() ==> view_ugens(*l1)[j] == view_ugen(*l1[j]),
            forall|j: int| 0 <= j < l2.len() ==> view_ugens(*l2)[j] == view_ugen(*l2[j]),
        decreases l1.len() - i,
    {
        if !compare_ugen(&*l1[i], &*l2[i]) {
            proof {
                assert(!ugen_eq(view_ugens(*l1)[i as int], view_ugens(*l2)[i as int]));
            }
            return false;
        }
        i = i + 1;
    }
    true
}

/// Decides structural equality of two primitives, as `prim_eq`.
pub fn compare_primitive(p1: &Primitive, p2: &Primitive) -> (r: bool)
    ensures
        r == prim_eq(p1@, p2@),
    decreases *p1, 1int,
{
    if p1.inputs.len() != p2.inputs.len() || p1.outputs.len() != p2.outputs.len() {
        proof {
            lemma_view_ugens_prefix(p1.inputs, p1.inputs.len() as int);
            lemma_view_ugens_prefix(p2.inputs, p2.inputs.len() as int);
        }
        return false;
    }
    let mut i: usize = 0;
    while i < p1.outputs.len()
        invariant
            i <= p1.outputs.len(),
            p1.outputs.len() == p2.outputs.len(),
            forall|j: int|
                0 <= j < i ==> spec_rate_id(#[trigger] p1.outputs@[j]) == spec_rate_id(
                    p2.outputs@[j],
                ),
        decreases p1.outputs.len() - i,
    {
        if rate_id(p1.outputs[i]) != rate_id(p2.outputs[i]) {
            return false;
        }
        i = i + 1;
    }
    if !compare_ugen_list(&p1.inputs, &p2.inputs) {
        return false;
    }
    p1.name == p2.name && p1.index == p2.index && p1.special == p2.special && rate_id(p1.rate)
        == rate_id(p2.rate)
}

/// Decides deep structural equality of two trees, as `ugen_eq`: the
/// comparison the graph compiler uses as its deduplication key.
pub fn compare_ugen(ugen1: &Ugen, ugen2: &Ugen) -> (r: bool)
    ensures
        r == ugen_eq(ugen1@, ugen2@),
    decreases *ugen1, 2int,
{
    match (ugen1, ugen2) {
        (Ugen::IConst(c1), Ugen::IConst(c2)) => c1.value == c2.value,
        (Ugen::FConst(c1), Ugen::FConst(c2)) => f32_bits_eq(c1.bits, c2.bits),
        (Ugen::Control(c1), Ugen::Control(c2)) => c1.name == c2.name && c1.index == c2.index
            && rate_id(c1.rate) == rate_id(c2.rate),
        (Ugen::Primitive(p1), Ugen::Primitive(p2)) => compare_primitive(p1, p2),
        (Ugen::Mce(m1), Ugen::Mce(m2)) => compare_ugen_list(&m1.ugens, &m2.ugens),
        (Ugen::Mrg(m1), Ugen::Mrg(m2)) => compare_ugen(&*m1.left, &*m2.left) && compare_ugen(
            &*m1.right,
            &*m2.right,
        ),
        (Ugen::Proxy(x1), Ugen::Proxy(x2)) => x1.index == x2.index && compare_primitive(
            &x1.primitive,
            &x2.primitive,
        ),
        (Ugen::FromPortC(f1), Ugen::FromPortC(f2)) => f1.port_nid == f2.port_nid,
        (Ugen::FromPortK(f1), Ugen::FromPortK(f2)) => f1.port_nid == f2.port_nid,
        (Ugen::FromPortU(f1), Ugen::FromPortU(f2)) => f1.port_nid == f2.port_nid && f1.port_idx
            == f2.port_idx,
        _ => false,
    }
}

/// Whether no float constant anywhere in the tree is a NaN pattern.
pub open spec fn nan_free(u: UgenV) -> bool
    decreases u,
{
    match u {
        UgenV::FConst { bits } => !crate::numbits::spec_f32_is_nan(bits),
        UgenV::Primitive { prim } => nan_free_list(prim.inputs),
        UgenV::Mce { channels } => nan_free_list(channels),
        UgenV::Mrg { left, right } => nan_free(*left) && nan_free(*right),
        UgenV::Proxy { primitive, index } => nan_free_list(primitive.inputs),
        _ => true,
    }
}

/// Whether every tree of a list is free of NaN float constants.
pub open spec fn nan_free_list(l: Seq<UgenV>) -> bool
    decreases l,
{
    forall|i: int| 0 <= i < l.len() ==> nan_free(#[trigger] l[i])
}

/// Structural equality is reflexive on every tree without NaN float
/// constants. (A NaN constant is unequal even to itself, as IEEE-754
/// equality demands.)
pub proof fn lemma_ugen_eq_reflexive(u: UgenV)
    requires
        nan_free(u),
    ensures
        ugen_eq(u, u),
    decreases u, 1int,
{
    reveal_with_fuel(ugen_eq, 2);
    reveal_with_fuel(nan_free, 2);
    match u {
        UgenV::Primitive { prim } => {
            lemma_prim_eq_reflexive(prim);
        },
        UgenV::Mce { channels } => {
            assert forall|i: int| 0 <= i < channels.len() implies ugen_eq(
                #[trigger] channels[i],
                channels[i],
            ) by {
                lemma_ugen_eq_reflexive(channels[i]);
            }
        },
        UgenV::Mrg { left, right } => {
            lemma_ugen_eq_reflexive(*left);
            lemma_ugen_eq_reflexive(*right);
        },
        UgenV::Proxy { primitive, index } => {
            lemma_prim_eq_reflexive(primitive);
        },
        _ => {},
    }
}

/// Primitive equality is reflexive when the inputs are free of NaN float
/// constants.
pub proof fn lemma_prim_eq_reflexive(p: PrimitiveV)
    requires
        nan_free_list(p.inputs),
    ensures
        prim_eq(p, p),
    decreases p, 2int,
{
    reveal_with_fuel(prim_eq, 2);
    assert forall|i: int| 0 <= i < p.inputs.len() implies ugen_eq(
        #[trigger] p.inputs[i],
        p.inputs[i],
    ) by {
        lemma_ugen_eq_reflexive(p.inputs[i]);
    }
}

/// The larger of two rates, by their integer encoding.
pub open spec fn spec_max_rate2(a: Rate, b: Rate) -> Rate {
    if spec_rate_id(b) > spec_rate_id(a) {
        b
    } else {
        a
    }
}

/// The maximum rate over the first `n` rates of a list, starting from
/// `start`.
pub open spec fn spec_max_rate(rates: Seq<Rate>, start: Rate, n: int) -> Rate
    decreases n,
{
    if n <= 0 || n > rates.len() {
        start
    } else {
        spec_max_rate2(spec_max_rate(rates, start, n - 1), rates[n - 1])
    }
}

/// Returns the maximum rate of a list, starting from `start`.
pub fn max_rate(rates: RateList, start: Rate) -> (r: Rate)
    ensures
        r == spec_max_rate(rates@, start, rates@.len() as int),
{
    let mut max: Rate = start;
    let mut i: usize = 0;
    while i < rates.len()
        invariant
            i <= rates.len(),
            max == spec_max_rate(rates@, start, i as int),
        decreases rates.len() - i,
    {
        if rate_id(rates[i]) > rate_id(max) {
            max = rates[i];
        }
        i = i + 1;
    }
    max
}

/// The maximum over the first `n` numbers of a list, starting from `start`.
pub open spec fn spec_max_num(nums: Seq<i32>, start: i32, n: int) -> i32
    decreases n,
{
    if n <= 0 || n > nums.len() {
        start
    } else {
        let prev = spec_max_num(nums, start, n - 1);
        if nums[n - 1] > prev {
            nums[n - 1]
        } else {
            prev
        }
    }
}

/// Returns the maximum of a list of numbers, starting from `start`.
pub fn max_num(nums: Vec<i32>, start: i32) -> (r: i32)
    ensures
        r == spec_max_num(nums@, start, nums@.len() as int),
{
    let mut max: i32 = start;
    let mut i: usize = 0;
    while i < nums.len()
        invariant
            i <= nums.len(),
            max == spec_max_num(nums@, start, i as int),
        decreases nums.len() - i,
    {
        if nums[i] > max {
            max = nums[i];
        }
        i = i + 1;
    }
    max
}

/// The rate of a tree: a control or primitive reports its own rate, a
/// bundle the maximum of its channels, a merge the rate of its left side,
/// and anything else control rate.
pub open spec fn spec_rate_of(u: UgenV) -> Rate
    decreases u, 1int,
{
    match u {
        UgenV::Control { rate, .. } => rate,
        UgenV::Mce { channels } => spec_mce_max_rate(channels, channels.len() as int),
        UgenV::Mrg { left, .. } => spec_rate_of(*left),
        UgenV::Primitive { prim } => prim.rate,
        UgenV::Proxy { primitive, .. } => primitive.rate,
        _ => Rate::RateKr,
    }
}

/// The maximum rate over the first `n` channels of a bundle, starting from
/// control rate.
pub open spec fn spec_mce_max_rate(channels: Seq<UgenV>, n: int) -> Rate
    decreases channels, n,
{
    if n <= 0 || n > channels.len() {
        Rate::RateKr
    } else {
        spec_max_rate2(spec_mce_max_rate(channels, n - 1), spec_rate_of(channels[n - 1]))
    }
}

/// Returns the rate of a tree, as `spec_rate_of`.
#[verifier::loop_isolation(false)]
pub fn rate_of(ugen: &Ugen) -> (r: Rate)
    ensures
        r == spec_rate_of(ugen@),
    decreases *ugen, 2int,
{
    match ugen {
        Ugen::Control(control) => control.rate,
        Ugen::Mce(mce) => {
            proof {
                lemma_view_ugens_prefix(mce.ugens, mce.ugens.len() as int);
            }
            let ghost chs = view_ugens(mce.ugens);
            let mut max: Rate = Rate::RateKr;
            let mut i: usize = 0;
            while i < mce.ugens.len()
                invariant
                    i <= mce.ugens.len(),
                    chs.len() == mce.ugens.len(),
                    forall|j: int| 0 <= j < mce.ugens.len() ==> chs[j] == view_ugen(
                        *mce.ugens@[j],
                    ),
                    max == spec_mce_max_rate(chs, i as int),
                decreases mce.ugens.len() - i,
            {
                let cr = rate_of(&*mce.ugens[i]);
                if rate_id(cr) > rate_id(max) {
                    max = cr;
                }
                i = i + 1;
            }
            max
        },
        Ugen::Mrg(mrg) => rate_of(&*mrg.left),
        Ugen::Primitive(primitive) => primitive.rate,
        Ugen::Proxy(proxy) => proxy.primitive.rate,
        _ => Rate::RateKr,
    }
}

/// Whether a tree is a sink: a primitive with no inputs, a bundle holding a
/// sink, or a merge whose left side is a sink.
pub open spec fn spec_is_sink(u: UgenV) -> bool
    decreases u, 1int,
{
    match u {
        UgenV::Mce { channels } => spec_any_sink(channels, channels.len() as int),
        UgenV::Mrg { left, .. } => spec_is_sink(*left),
        UgenV::Primitive { prim } => prim.inputs.len() == 0,
        _ => false,
    }
}

/// Whether any of the first `n` channels is a sink.
pub open spec fn spec_any_sink(channels: Seq<UgenV>, n: int) -> bool
    decreases channels, n,
{
    if n <= 0 || n > channels.len() {
        false
    } else {
        spec_any_sink(channels, n - 1) || spec_is_sink(channels[n - 1])
    }
}

/// Returns whether a tree is a sink, as `spec_is_sink`.
#[verifier::loop_isolation(false)]
pub fn is_sink(ugen: &Ugen) -> (r: bool)
    ensures
        r == spec_is_sink(ugen@),
    decreases *ugen, 2int,
{
    match ugen {
        Ugen::Mce(mce) => {
            proof {
                lemma_view_ugens_prefix(mce.ugens, mce.ugens.len() as int);
            }
            let ghost chs = view_ugens(mce.ugens);
            let mut i: usize = 0;
            while i < mce.ugens.len()
                invariant
                    i <= mce.ugens.len(),
                    chs.len() == mce.ugens.len(),
                    forall|j: int| 0 <= j < mce.ugens.len() ==> chs[j] == view_ugen(
                        *mce.ugens@[j],
                    ),
                    !spec_any_sink(chs, i as int),
                decreases mce.ugens.len() - i,
            {
                if is_sink(&*mce.ugens[i]) {
                    proof {
                        lemma_spec_any_sink_found(chs, i as int, mce.ugens.len() as int);
                    }
                    return true;
                }
                i = i + 1;
            }
            false
        },
        Ugen::Mrg(mrg) => is_sink(&*mrg.left),
        Ugen::Primitive(primitive) => {
            proof {
                lemma_view_ugens_prefix(primitive.inputs, primitive.inputs.len() as int);
            }
            primitive.inputs.len() == 0
        },
        _ => false,
    }
}

/// If channel `i` is a sink, the whole prefix scan up to `n > i` finds one.
proof fn lemma_spec_any_sink_found(channels: Seq<UgenV>, i: int, n: int)
    requires
        0 <= i < n <= channels.len(),
        spec_is_sink(channels[i]),
    ensures
        spec_any_sink(channels, n),
    decreases n,
{
    if i < n - 1 {
        lemma_spec_any_sink_found(channels, i, n - 1);
    }
}

/// Returns `[init, init + step, ...]`, `n` values in arithmetic
/// progression.
pub fn iota(n: i32, init: i32, step: i32) -> (r: Vec<i32>)
    requires
        n >= 0,
        forall|k: int| 0 <= k < n ==> i32::MIN <= init + #[trigger] (k * step) <= i32::MAX,
    ensures
        r@.len() == n as int,
        forall|k: int| 0 <= k < n ==> r@[k] == init + k * step,
{
    let mut out: Vec<i32> = Vec::new();
    let mut i: i32 = 0;
    while i < n
        invariant
            0 <= i <= n,
            out@.len() == i as int,
            forall|k: int| 0 <= k < n ==> i32::MIN <= init + #[trigger] (k * step) <= i32::MAX,
            forall|k: int| 0 <= k < i ==> out@[k] == init + k * step,
        decreases n - i,
    {
        proof {
            assert(init + (i as int) * step <= i32::MAX && init + (i as int) * step
                >= i32::MIN);
        }
        let v: i64 = init as i64 + (i as i64) * (step as i64);
        out.push(v as i32);
        i = i + 1;
    }
    out
}

/// Copies a rate list.
pub fn dup_rates(l: &RateList) -> (r: RateList)
    ensures
        r@ == l@,
{
    let mut out: RateList = Vec::new();
    let mut i: usize = 0;
    while i < l.len()
        invariant
            i <= l.len(),
            out@ =~= l@.subrange(0, i as int),
        decreases l.len() - i,
    {
        out.push(l[i]);
        i = i + 1;
    }
    proof {
        assert(out@ =~= l@);
    }
    out
}

/// Copies a list of sub-trees; the copy has the same view.
pub fn dup_ugen_list(l: &UgenList) -> (r: UgenList)
    ensures
        view_ugens(r) == view_ugens(*l),
        r.len() == l.len(),
    decreases *l, 0int,
{
    proof {
        lemma_view_ugens_prefix(*l, l.len() as int);
    }
    let mut out: UgenList = Vec::new();
    let mut i: usize = 0;
    while i < l.len()
        invariant
            i <= l.len(),
            out.len() == i,
            forall|j: int| 0 <= j < i ==> view_ugen(*out@[j]) == view_ugen(*l@[j]),
        decreases l.len() - i,
    {
        let c = dup_ugen(&*l[i]);
        out.push(Box::new(c));
        i = i + 1;
    }
    proof {
        lemma_view_ugens_prefix(out, out.len() as int);
        assert(view_ugens(out) =~= view_ugens(*l));
    }
    out
}

/// Copies a primitive; the copy has the same view.
pub fn dup_primitive(p: &Primitive) -> (r: Primitive)
    ensures
        r@ == p@,
    decreases *p, 1int,
{
    Primitive {
        name: p.name.clone(),
        inputs: dup_ugen_list(&p.inputs),
        outputs: dup_rates(&p.outputs),
        special: p.special,
        index: p.index,
        rate: p.rate,
    }
}

/// Copies a tree; the copy has the same view.
pub fn dup_ugen(u: &Ugen) -> (r: Ugen)
    ensures
        r@ == u@,
    decreases *u, 2int,
{
    match u {
        Ugen::IConst(c) => Ugen::IConst(IConst { value: c.value }),
        Ugen::FConst(c) => Ugen::FConst(FConst { bits: c.bits }),
        Ugen::Control(c) => Ugen::Control(
            Control { name: c.name.clone(), index: c.index, rate: c.rate },
        ),
        Ugen::Primitive(p) => Ugen::Primitive(dup_primitive(p)),
        Ugen::Mce(m) => Ugen::Mce(Mce { ugens: dup_ugen_list(&m.ugens) }),
        Ugen::Mrg(m) => Ugen::Mrg(
            Mrg { left: Box::new(dup_ugen(&*m.left)), right: Box::new(dup_ugen(&*m.right)) },
        ),
        Ugen::Proxy(x) => Ugen::Proxy(
            Proxy { primitive: dup_primitive(&x.primitive), index: x.index },
        ),
        Ugen::FromPortC(f) => Ugen::FromPortC(FromPortC { port_nid: f.port_nid }),
        Ugen::FromPortK(f) => Ugen::FromPortK(FromPortK { port_nid: f.port_nid }),
        Ugen::FromPortU(f) => Ugen::FromPortU(
            FromPortU { port_nid: f.port_nid, port_idx: f.port_idx },
        ),
    }
}

impl Default for Primitive {
    /// The empty primitive: no name, no inputs, no outputs, control rate.
    fn default() -> (r: Self)
        ensures
            r@.name == Seq::<char>::empty(),
            r@.inputs == Seq::<UgenV>::empty(),
            r@.outputs == Seq::<Rate>::empty(),
            r@.special == 0,
            r@.index == 0,
            r@.rate == Rate::RateKr,
    {
        let p = Primitive {
            name: String::new(),
            inputs: Vec::new(),
            outputs: Vec::new(),
            special: 0,
            index: 0,
            rate: Rate::RateKr,
        };
        proof {
            assert(p@.inputs =~= Seq::<UgenV>::empty());
            assert(p@.outputs =~= Seq::<Rate>::empty());
        }
        p
    }
}

} // verus!
