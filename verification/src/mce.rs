//! The multi-channel expansion engine: rewrites a tree containing
//! multi-channel bundles into a single bundle of single-channel trees
//! (cross-product over input channel counts), and splits multi-output
//! primitives into per-output proxies.

use vstd::prelude::*;

use crate::sc3::Mce;
use crate::sc3::Mrg;
use crate::sc3::Primitive;
use crate::sc3::PrimitiveV;
use crate::sc3::Proxy;
use crate::sc3::Ugen;
use crate::sc3::UgenList;
use crate::sc3::UgenV;
use crate::sc3::dup_ugen;
use crate::sc3::dup_ugen_list;
use crate::sc3::dup_rates;
use crate::sc3::view_ugen;
use crate::sc3::view_ugens;
use crate::sc3::lemma_view_ugens_prefix;

verus! {

/// Cyclic extension of a channel list to exactly `n` channels: channel `i`
/// of the result is channel `i` modulo the original count, so a shorter
/// list wraps around and a longer one is truncated.
pub open spec fn spec_extend(chs: Seq<UgenV>, n: int) -> Seq<UgenV>
    recommends
        chs.len() >= 1,
{
    Seq::new(n as nat, |i: int| chs[i % (chs.len() as int)])
}

/// Whether the channel count of a tree is defined: it is a bundle, or a
/// merge whose left side has one.
pub open spec fn spec_has_degree(u: UgenV) -> bool
    decreases u,
{
    match u {
        UgenV::Mce { .. } => true,
        UgenV::Mrg { left, .. } => spec_has_degree(*left),
        _ => false,
    }
}

/// The channel count of a tree: a bundle's channel count, or the count of
/// a merge's left side.
pub open spec fn spec_mce_degree(u: UgenV) -> int
    decreases u,
{
    match u {
        UgenV::Mce { channels } => channels.len() as int,
        UgenV::Mrg { left, .. } => spec_mce_degree(*left),
        _ => 0,
    }
}

/// Whether a tree can be extended to `n` channels: bundles met directly or
/// along merge left sides are nonempty.
pub open spec fn spec_extendable(u: UgenV) -> bool
    decreases u,
{
    match u {
        UgenV::Mce { channels } => channels.len() >= 1,
        UgenV::Mrg { left, .. } => spec_extendable(*left),
        _ => true,
    }
}

/// Extension of one tree to `n` channels: a bundle extends cyclically; a
/// merge becomes, on channel zero, a new merge of channel zero of its left
/// side's extension with the right attachment preserved, and passes the
/// remaining channels of that extension through unmodified; any other tree
/// replicates.
pub open spec fn spec_mce_extend(n: int, u: UgenV) -> Seq<UgenV>
    decreases u,
{
    match u {
        UgenV::Mce { channels } => spec_extend(channels, n),
        UgenV::Mrg { left, right } => {
            let ex = spec_mce_extend(n, *left);
            seq![UgenV::Mrg { left: Box::new(ex[0]), right }] + ex.subrange(1, n)
        },
        _ => Seq::new(n as nat, |i: int| u),
    }
}

/// An extendable tree extends to exactly `n` channels.
pub proof fn lemma_mce_extend_len(n: int, u: UgenV)
    requires
        n >= 1,
        spec_extendable(u),
    ensures
        spec_mce_extend(n, u).len() == n,
    decreases u,
{
    match u {
        UgenV::Mrg { left, .. } => {
            lemma_mce_extend_len(n, *left);
        },
        _ => {},
    }
}

/// The nesting depth of bundles along the extension spine: how many
/// transforms it can take to strip a tree down to single channels.
pub open spec fn spec_mce_depth(u: UgenV) -> nat
    decreases u, 1int,
{
    match u {
        UgenV::Mce { channels } => 1 + spec_channels_depth(channels, channels.len() as int),
        UgenV::Mrg { left, .. } => spec_mce_depth(*left),
        _ => 0,
    }
}

/// The largest depth among the first `n` trees of a list.
pub open spec fn spec_channels_depth(chs: Seq<UgenV>, n: int) -> nat
    decreases chs, n,
{
    if n <= 0 || n > chs.len() {
        0
    } else {
        let prev = spec_channels_depth(chs, n - 1);
        let d = spec_mce_depth(chs[n - 1]);
        if d > prev {
            d
        } else {
            prev
        }
    }
}

/// The largest depth among the bundle-typed trees of the first `n` of a
/// list.
pub open spec fn spec_mce_channels_depth(chs: Seq<UgenV>, n: int) -> nat
    decreases chs, n,
{
    if n <= 0 || n > chs.len() {
        0
    } else {
        let prev = spec_mce_channels_depth(chs, n - 1);
        let d: nat = if chs[n - 1] is Mce {
            spec_mce_depth(chs[n - 1])
        } else {
            0
        };
        if d > prev {
            d
        } else {
            prev
        }
    }
}

/// Each tree's depth is bounded by the prefix maximum.
pub proof fn lemma_channels_depth_ub(chs: Seq<UgenV>, n: int, j: int)
    requires
        0 <= j < n <= chs.len(),
    ensures
        spec_mce_depth(chs[j]) <= spec_channels_depth(chs, n),
    decreases n,
{
    if j < n - 1 {
        lemma_channels_depth_ub(chs, n - 1, j);
    }
}

/// A bound on every tree's depth bounds the prefix maximum.
pub proof fn lemma_channels_depth_lub(chs: Seq<UgenV>, n: int, b: nat)
    requires
        n <= chs.len(),
        forall|j: int| 0 <= j < n ==> spec_mce_depth(#[trigger] chs[j]) <= b,
    ensures
        spec_channels_depth(chs, n) <= b,
    decreases n,
{
    if n > 0 {
        lemma_channels_depth_lub(chs, n - 1, b);
    }
}

/// Each bundle-typed tree's depth is bounded by the bundle prefix maximum.
pub proof fn lemma_mce_channels_depth_ub(chs: Seq<UgenV>, n: int, j: int)
    requires
        0 <= j < n <= chs.len(),
        chs[j] is Mce,
    ensures
        spec_mce_depth(chs[j]) <= spec_mce_channels_depth(chs, n),
    decreases n,
{
    if j < n - 1 {
        lemma_mce_channels_depth_ub(chs, n - 1, j);
    }
}

/// A bound on every bundle-typed tree's depth bounds the bundle prefix
/// maximum.
pub proof fn lemma_mce_channels_depth_lub(chs: Seq<UgenV>, n: int, b: nat)
    requires
        n <= chs.len(),
        forall|j: int|
            0 <= j < n && (#[trigger] chs[j]) is Mce ==> spec_mce_depth(chs[j]) <= b,
    ensures
        spec_mce_channels_depth(chs, n) <= b,
    decreases n,
{
    if n > 0 {
        lemma_mce_channels_depth_lub(chs, n - 1, b);
    }
}

/// The extension's channels never exceed the source's depth; channels
/// other than the first are strictly shallower (or the source was flat);
/// and a bundle-typed channel is always strictly shallower.
pub proof fn lemma_mce_extend_depth(n: int, u: UgenV, i: int)
    requires
        n >= 1,
        spec_extendable(u),
        0 <= i < n,
    ensures
        spec_mce_depth(spec_mce_extend(n, u)[i]) <= spec_mce_depth(u),
        spec_mce_extend(n, u)[i] is Mce ==> spec_mce_depth(spec_mce_extend(n, u)[i])
            < spec_mce_depth(u),
        i >= 1 ==> (spec_mce_depth(spec_mce_extend(n, u)[i]) < spec_mce_depth(u)
            || spec_mce_depth(u) == 0),
    decreases u,
{
    match u {
        UgenV::Mce { channels } => {
            let j = i % (channels.len() as int);
            lemma_channels_depth_ub(channels, channels.len() as int, j);
        },
        UgenV::Mrg { left, .. } => {
            lemma_mce_extend_len(n, *left);
            lemma_mce_extend_depth(n, *left, 0);
            if i >= 1 {
                lemma_mce_extend_depth(n, *left, i);
                assert(spec_mce_extend(n, u)[i] == spec_mce_extend(n, *left).subrange(1, n)[i
                    - 1]);
            }
        },
        _ => {},
    }
}

/// Whether every bundle anywhere in a tree is nonempty: the structural
/// invariant of caller-built trees.
pub open spec fn spec_wf_mce(u: UgenV) -> bool
    decreases u,
{
    match u {
        UgenV::Mce { channels } => channels.len() >= 1 && spec_wf_mce_list(channels),
        UgenV::Mrg { left, right } => spec_wf_mce(*left) && spec_wf_mce(*right),
        UgenV::Primitive { prim } => spec_wf_mce_list(prim.inputs),
        UgenV::Proxy { primitive, .. } => spec_wf_mce_list(primitive.inputs),
        _ => true,
    }
}

/// Whether every tree of a list keeps all its bundles nonempty.
pub open spec fn spec_wf_mce_list(l: Seq<UgenV>) -> bool
    decreases l,
{
    forall|i: int| 0 <= i < l.len() ==> spec_wf_mce(#[trigger] l[i])
}

/// A well-formed tree is extendable, and its extension channels are
/// well-formed.
pub proof fn lemma_mce_extend_wf(n: int, u: UgenV, i: int)
    requires
        n >= 1,
        spec_wf_mce(u),
        0 <= i < n,
    ensures
        spec_extendable(u),
        spec_wf_mce(spec_mce_extend(n, u)[i]),
    decreases u,
{
    reveal_with_fuel(spec_wf_mce, 2);
    reveal_with_fuel(spec_wf_mce_list, 2);
    match u {
        UgenV::Mce { channels } => {
            let j = i % (channels.len() as int);
            assert(spec_wf_mce_list(channels));
            assert(spec_wf_mce(channels[j]));
        },
        UgenV::Mrg { left, .. } => {
            lemma_mce_extend_wf(n, *left, i);
            lemma_mce_extend_wf(n, *left, 0);
            lemma_mce_extend_len(n, *left);
            if i >= 1 {
                assert(spec_mce_extend(n, u)[i] == spec_mce_extend(n, *left).subrange(1, n)[i
                    - 1]);
            }
        },
        _ => {},
    }
}

/// Returns the cyclic extension of a channel list to exactly `new_len`
/// channels: the first `new_len` channels if the list is long enough, else
/// the list repeated and truncated.
pub fn extend(ugens: &UgenList, new_len: i32) -> (r: UgenList)
    requires
        ugens.len() >= 1,
        new_len >= 0,
    ensures
        view_ugens(r) == spec_extend(view_ugens(*ugens), new_len as int),
        r.len() == new_len,
{
    extend_n(ugens, new_len as usize)
}

/// Cyclic extension of a channel list, counted as a machine size.
#[verifier::loop_isolation(false)]
fn extend_n(ugens: &UgenList, new_len: usize) -> (r: UgenList)
    requires
        ugens.len() >= 1,
    ensures
        view_ugens(r) == spec_extend(view_ugens(*ugens), new_len as int),
        r.len() == new_len,
{
    proof {
        lemma_view_ugens_prefix(*ugens, ugens.len() as int);
    }
    let n: usize = new_len;
    let mut out: UgenList = Vec::new();
    let mut i: usize = 0;
    while i < n
        invariant
            i <= n,
            out.len() == i,
            forall|j: int| 0 <= j < i ==> view_ugen(*out@[j]) == view_ugens(*ugens)[j % (
            ugens.len() as int)],
        decreases n - i,
    {
        let c = dup_ugen(&*ugens[i % ugens.len()]);
        out.push(Box::new(c));
        i = i + 1;
    }
    proof {
        lemma_view_ugens_prefix(out, out.len() as int);
        assert(view_ugens(out) =~= spec_extend(view_ugens(*ugens), new_len as int));
    }
    out
}

/// Returns the channel count of a bundle or of a merge's left side.
pub fn mce_degree(ugen: &Ugen) -> (r: i32)
    requires
        spec_has_degree(ugen@),
        spec_mce_degree(ugen@) <= i32::MAX,
    ensures
        r as int == spec_mce_degree(ugen@),
    decreases *ugen,
{
    match ugen {
        Ugen::Mce(mce) => {
            proof {
                lemma_view_ugens_prefix(mce.ugens, mce.ugens.len() as int);
            }
            mce.ugens.len() as i32
        },
        Ugen::Mrg(mrg) => mce_degree(&*mrg.left),
        _ => vstd::pervasive::unreached(),
    }
}

/// Whether a tree is an unexpanded bundle.
pub fn is_mce(ugen: &Ugen) -> (r: bool)
    ensures
        r == (ugen@ is Mce),
{
    match ugen {
        Ugen::Mce(_) => true,
        _ => false,
    }
}

/// Whether some input is an unexpanded bundle.
pub open spec fn spec_has_mce_input(inputs: Seq<UgenV>) -> bool {
    exists|i: int| 0 <= i < inputs.len() && (#[trigger] inputs[i]) is Mce
}

/// The largest channel count among the bundle-typed trees of the first
/// `n` inputs; zero when there are none.
pub open spec fn spec_upper_degree(inputs: Seq<UgenV>, n: int) -> int
    decreases n,
{
    if n <= 0 || n > inputs.len() {
        0
    } else {
        let prev = spec_upper_degree(inputs, n - 1);
        let d: int = if inputs[n - 1] is Mce {
            spec_mce_degree(inputs[n - 1])
        } else {
            0
        };
        if d > prev {
            d
        } else {
            prev
        }
    }
}

/// Each bundle-typed input's channel count is bounded by the upper
/// degree.
pub proof fn lemma_upper_degree_ub(inputs: Seq<UgenV>, n: int, j: int)
    requires
        0 <= j < n <= inputs.len(),
        inputs[j] is Mce,
    ensures
        spec_mce_degree(inputs[j]) <= spec_upper_degree(inputs, n),
        spec_upper_degree(inputs, n) >= 0,
    decreases n,
{
    if j < n - 1 {
        lemma_upper_degree_ub(inputs, n - 1, j);
    }
}

/// The upper degree is never negative.
pub proof fn lemma_upper_degree_nonneg(inputs: Seq<UgenV>, n: int)
    ensures
        spec_upper_degree(inputs, n) >= 0,
    decreases n,
{
    if 0 < n <= inputs.len() {
        lemma_upper_degree_nonneg(inputs, n - 1);
    }
}

/// Row `r` of the cross-product transform of a primitive: the same
/// primitive except that input `j` becomes channel `r` of input `j`'s
/// extension to the upper degree.
pub open spec fn spec_transform_row(p: PrimitiveV, upr: int, r: int) -> PrimitiveV {
    PrimitiveV {
        name: p.name,
        inputs: Seq::new(p.inputs.len(), |j: int| spec_mce_extend(upr, p.inputs[j])[r]),
        outputs: p.outputs,
        special: p.special,
        index: p.index,
        rate: p.rate,
    }
}

/// The cross-product transform: one primitive per channel up to the
/// largest bundle degree among the inputs, wrapped as a bundle.
pub open spec fn spec_mce_transform(p: PrimitiveV) -> UgenV {
    let upr = spec_upper_degree(p.inputs, p.inputs.len() as int);
    UgenV::Mce {
        channels: Seq::new(
            upr as nat,
            |r: int| UgenV::Primitive { prim: spec_transform_row(p, upr, r) },
        ),
    }
}

/// Row `r` of a primitive's transform at its own upper degree.
pub open spec fn spec_rowp(p: PrimitiveV, r: int) -> PrimitiveV {
    spec_transform_row(p, spec_upper_degree(p.inputs, p.inputs.len() as int), r)
}

/// The expansion measure of a primitive: the largest bundle depth among
/// all its inputs.
pub open spec fn spec_vmax(p: PrimitiveV) -> nat {
    spec_channels_depth(p.inputs, p.inputs.len() as int)
}

/// The second expansion measure: the largest depth among bundle-typed
/// inputs alone.
pub open spec fn spec_vmce(p: PrimitiveV) -> nat {
    spec_mce_channels_depth(p.inputs, p.inputs.len() as int)
}

/// What the transform does to the expansion measures: the upper degree is
/// at least one, every row stays within the parent's depth, rows after
/// the first get strictly shallower, and the first row's bundle depth
/// strictly drops. Every row is also well formed.
pub proof fn lemma_transform_row_measure(p: PrimitiveV, r: int)
    requires
        spec_wf_mce_list(p.inputs),
        spec_has_mce_input(p.inputs),
        0 <= r < spec_upper_degree(p.inputs, p.inputs.len() as int),
    ensures
        spec_upper_degree(p.inputs, p.inputs.len() as int) >= 1,
        spec_vmce(p) >= 1,
        spec_vmax(spec_rowp(p, r)) <= spec_vmax(p),
        r >= 1 ==> spec_vmax(spec_rowp(p, r)) < spec_vmax(p),
        r == 0 ==> spec_vmce(spec_rowp(p, r)) < spec_vmce(p),
        spec_wf_mce_list(spec_rowp(p, r).inputs),
{
    let nn = p.inputs.len() as int;
    let upr = spec_upper_degree(p.inputs, nn);
    let wit = choose|i: int| 0 <= i < nn && (#[trigger] p.inputs[i]) is Mce;
    lemma_upper_degree_ub(p.inputs, nn, wit);
    assert(spec_wf_mce(p.inputs[wit]));
    assert(spec_mce_degree(p.inputs[wit]) >= 1);
    assert(upr >= 1);
    assert(spec_mce_depth(p.inputs[wit]) >= 1);
    lemma_mce_channels_depth_ub(p.inputs, nn, wit);
    lemma_channels_depth_ub(p.inputs, nn, wit);
    let row = spec_transform_row(p, upr, r);
    let vp = spec_channels_depth(p.inputs, nn);
    let mp = spec_mce_channels_depth(p.inputs, nn);
    assert forall|j: int| 0 <= j < nn implies {
        &&& spec_mce_depth(#[trigger] row.inputs[j]) <= vp
        &&& (r >= 1 ==> (vp >= 1 && spec_mce_depth(row.inputs[j]) < vp))
        &&& (r == 0 && row.inputs[j] is Mce ==> spec_mce_depth(row.inputs[j]) < mp)
        &&& spec_wf_mce(row.inputs[j])
    } by {
        lemma_mce_extend_wf(upr, p.inputs[j], r);
        lemma_mce_extend_depth(upr, p.inputs[j], r);
        lemma_channels_depth_ub(p.inputs, nn, j);
        assert(vp >= 1);
        if r == 0 && row.inputs[j] is Mce {
            match p.inputs[j] {
                UgenV::Mce { channels } => {
                    lemma_mce_channels_depth_ub(p.inputs, nn, j);
                },
                UgenV::Mrg { .. } => {},
                _ => {
                    assert(row.inputs[j] == p.inputs[j]);
                },
            }
        }
    }
    lemma_channels_depth_lub(row.inputs, nn, vp);
    if r >= 1 {
        lemma_channels_depth_lub(row.inputs, nn, (vp - 1) as nat);
    }
    if r == 0 {
        lemma_mce_channels_depth_lub(row.inputs, nn, (mp - 1) as nat);
    }
}

/// Expansion of one primitive: no bundle input means no work; otherwise
/// transform it and expand each resulting row in turn.
pub open spec fn spec_expand_primitive(p: PrimitiveV) -> UgenV
    decreases spec_vmax(p), spec_vmce(p), 1int, 0int,
{
    if !spec_has_mce_input(p.inputs) || !spec_wf_mce_list(p.inputs) {
        UgenV::Primitive { prim: p }
    } else {
        UgenV::Mce {
            channels: spec_expand_rows(p, spec_upper_degree(p.inputs, p.inputs.len() as int)),
        }
    }
}

/// The first `k` expanded rows of a primitive's transform.
pub open spec fn spec_expand_rows(p: PrimitiveV, k: int) -> Seq<UgenV>
    decreases spec_vmax(p), spec_vmce(p), 0int, k,
    via spec_expand_rows_dec
{
    if k <= 0 || k > spec_upper_degree(p.inputs, p.inputs.len() as int) {
        Seq::empty()
    } else {
        let row = spec_transform_row(
            p,
            spec_upper_degree(p.inputs, p.inputs.len() as int),
            k - 1,
        );
        let e: UgenV = if spec_has_mce_input(row.inputs) && spec_wf_mce_list(p.inputs) {
            spec_expand_primitive(row)
        } else {
            UgenV::Primitive { prim: row }
        };
        spec_expand_rows(p, k - 1).push(e)
    }
}

#[via_fn]
proof fn spec_expand_rows_dec(p: PrimitiveV, k: int) {
    let nn = p.inputs.len() as int;
    let upr = spec_upper_degree(p.inputs, nn);
    if 0 < k <= upr {
        let row = spec_transform_row(p, upr, k - 1);
        if spec_has_mce_input(row.inputs) && spec_wf_mce_list(p.inputs) {
            assert(spec_has_mce_input(p.inputs)) by {
                if !spec_has_mce_input(p.inputs) {
                    lemma_upper_degree_nonneg(p.inputs, nn);
                    assert forall|j: int| 0 <= j < nn implies !((#[trigger] p.inputs[j])
                        is Mce) by {}
                    assert(upr <= 0) by {
                        lemma_upper_degree_zero(p.inputs, nn);
                    }
                }
            }
            lemma_transform_row_measure(p, k - 1);
            assert(row.inputs.len() == nn);
        }
    }
}

/// With a well-formed bundle input present, the upper degree is at least
/// one.
pub proof fn lemma_upper_degree_pos(inputs: Seq<UgenV>)
    requires
        spec_wf_mce_list(inputs),
        spec_has_mce_input(inputs),
    ensures
        spec_upper_degree(inputs, inputs.len() as int) >= 1,
        inputs.len() >= 1,
{
    reveal_with_fuel(spec_wf_mce, 2);
    let nn = inputs.len() as int;
    let wit = choose|i: int| 0 <= i < nn && (#[trigger] inputs[i]) is Mce;
    assert(spec_wf_mce(inputs[wit]));
    lemma_upper_degree_ub(inputs, nn, wit);
}

/// Without a bundle-typed input the upper degree is zero.
pub proof fn lemma_upper_degree_zero(inputs: Seq<UgenV>, n: int)
    requires
        forall|j: int| 0 <= j < inputs.len() ==> !((#[trigger] inputs[j]) is Mce),
    ensures
        spec_upper_degree(inputs, n) <= 0,
    decreases n,
{
    if 0 < n <= inputs.len() {
        lemma_upper_degree_zero(inputs, n - 1);
    }
}

/// Full expansion of a tree: bundles expand each channel, a merge expands
/// its left side, a primitive with a bundle input is transformed and its
/// rows expanded, and anything else is left alone.
pub open spec fn spec_mce_expand(u: UgenV) -> UgenV
    decreases u, 0int,
{
    match u {
        UgenV::Mce { channels } => UgenV::Mce {
            channels: spec_expand_channels(channels, channels.len() as int),
        },
        UgenV::Mrg { left, right } => UgenV::Mrg {
            left: Box::new(spec_mce_expand(*left)),
            right,
        },
        UgenV::Primitive { prim } => spec_expand_primitive(prim),
        _ => u,
    }
}

/// The expansions of the first `n` channels of a bundle.
pub open spec fn spec_expand_channels(chs: Seq<UgenV>, n: int) -> Seq<UgenV>
    decreases chs, n,
{
    if n <= 0 || n > chs.len() {
        Seq::empty()
    } else {
        spec_expand_channels(chs, n - 1).push(spec_mce_expand(chs[n - 1]))
    }
}

/// Returns the extension of one tree to `n` channels, as
/// `spec_mce_extend`.
pub fn mce_extend(n: i32, ugen: &Ugen) -> (r: UgenList)
    requires
        n >= 1,
        spec_extendable(ugen@),
    ensures
        view_ugens(r) == spec_mce_extend(n as int, ugen@),
        r.len() == n,
{
    mce_extend_n(n as usize, ugen)
}

/// Extension of one tree to `n` channels, counted as a machine size.
#[verifier::loop_isolation(false)]
fn mce_extend_n(n: usize, ugen: &Ugen) -> (r: UgenList)
    requires
        n >= 1,
        spec_extendable(ugen@),
    ensures
        view_ugens(r) == spec_mce_extend(n as int, ugen@),
        r.len() == n,
    decreases *ugen,
{
    proof {
        lemma_mce_extend_len(n as int, ugen@);
    }
    match ugen {
        Ugen::Mce(mce) => {
            proof {
                lemma_view_ugens_prefix(mce.ugens, mce.ugens.len() as int);
            }
            extend_n(&mce.ugens, n)
        },
        Ugen::Mrg(mrg) => {
            let ex = mce_extend_n(n, &*mrg.left);
            proof {
                lemma_view_ugens_prefix(ex, ex.len() as int);
            }
            let mut out: UgenList = Vec::new();
            let mrg1 = Ugen::Mrg(
                Mrg {
                    left: Box::new(dup_ugen(&*ex[0])),
                    right: Box::new(dup_ugen(&*mrg.right)),
                },
            );
            out.push(Box::new(mrg1));
            let nu: usize = n;
            let mut j: usize = 1;
            while j < nu
                invariant
                    1 <= j <= nu,
                    out.len() == j,
                    view_ugen(*out@[0]) == (UgenV::Mrg {
                        left: Box::new(spec_mce_extend(nu as int, *ugen@->Mrg_left)[0]),
                        right: ugen@->Mrg_right,
                    }),
                    forall|k: int| 1 <= k < j ==> view_ugen(*out@[k]) == spec_mce_extend(
                        nu as int,
                        *ugen@->Mrg_left,
                    )[k],
                decreases nu - j,
            {
                out.push(Box::new(dup_ugen(&*ex[j])));
                j = j + 1;
            }
            proof {
                lemma_view_ugens_prefix(out, out.len() as int);
                assert(view_ugens(out) =~= spec_mce_extend(n as int, ugen@));
            }
            out
        },
        _ => {
            let mut out: UgenList = Vec::new();
            let nu: usize = n;
            let mut j: usize = 0;
            while j < nu
                invariant
                    j <= nu,
                    out.len() == j,
                    forall|k: int| 0 <= k < j ==> view_ugen(*out@[k]) == ugen@,
                decreases nu - j,
            {
                out.push(Box::new(dup_ugen(ugen)));
                j = j + 1;
            }
            proof {
                lemma_view_ugens_prefix(out, out.len() as int);
                assert(view_ugens(out) =~= spec_mce_extend(n as int, ugen@));
            }
            out
        },
    }
}

/// Whether some input of a primitive is an unexpanded bundle.
#[verifier::loop_isolation(false)]
pub fn has_mce_input(primitive: &Primitive) -> (r: bool)
    ensures
        r == spec_has_mce_input(primitive@.inputs),
{
    proof {
        lemma_view_ugens_prefix(primitive.inputs, primitive.inputs.len() as int);
    }
    let mut i: usize = 0;
    while i < primitive.inputs.len()
        invariant
            i <= primitive.inputs.len(),
            forall|j: int| 0 <= j < i ==> !((#[trigger] primitive@.inputs[j]) is Mce),
        decreases primitive.inputs.len() - i,
    {
        if is_mce(&*primitive.inputs[i]) {
            proof {
                assert(primitive@.inputs[i as int] is Mce);
            }
            return true;
        }
        i = i + 1;
    }
    false
}

/// Transposes a rectangular list of channel lists: row `i` of the result
/// collects element `i` of every source list, in source order.
#[verifier::loop_isolation(false)]
pub fn transposer(list: Vec<UgenList>) -> (r: Vec<UgenList>)
    requires
        list.len() >= 1,
        forall|j: int| 0 <= j < list.len() ==> (#[trigger] list@[j]).len() >= list@[0].len(),
    ensures
        r.len() == list@[0].len(),
        forall|i: int| 0 <= i < r.len() ==> (#[trigger] r@[i]).len() == list.len(),
        forall|i: int, j: int|
            0 <= i < r.len() && 0 <= j < list.len() ==> view_ugen(*(#[trigger] r@[i]@[j]))
                == view_ugen(*list@[j]@[i]),
{
    let len1: usize = list.len();
    let len2: usize = list[0].len();
    let mut out: Vec<UgenList> = Vec::new();
    let mut i: usize = 0;
    while i < len2
        invariant
            i <= len2,
            out.len() == i,
            forall|a: int| 0 <= a < i ==> (#[trigger] out@[a]).len() == len1,
            forall|a: int, b: int|
                0 <= a < i && 0 <= b < len1 ==> view_ugen(*(#[trigger] out@[a]@[b]))
                    == view_ugen(*list@[b]@[a]),
        decreases len2 - i,
    {
        let mut row: UgenList = Vec::new();
        let mut j: usize = 0;
        while j < len1
            invariant
                j <= len1,
                i < len2,
                row.len() == j,
                forall|b: int| 0 <= b < j ==> view_ugen(*(#[trigger] row@[b])) == view_ugen(
                    *list@[b]@[i as int],
                ),
            decreases len1 - j,
        {
            let c = dup_ugen(&*list[j][i]);
            row.push(Box::new(c));
            j = j + 1;
        }
        out.push(row);
        i = i + 1;
    }
    out
}

/// The rows of a primitive's cross-product transform, each one primitive
/// over one channel of every input's extension.
#[verifier::loop_isolation(false)]
fn transform_rows(primitive: &Primitive) -> (r: Vec<Primitive>)
    requires
        spec_wf_mce_list(primitive@.inputs),
        spec_has_mce_input(primitive@.inputs),
    ensures
        r.len() == spec_upper_degree(primitive@.inputs, primitive@.inputs.len() as int),
        forall|k: int| 0 <= k < r.len() ==> (#[trigger] r@[k])@ == spec_rowp(primitive@, k),
    decreases *primitive, 0int,
{
    let ghost pv = primitive@;
    let ghost nn = pv.inputs.len() as int;
    proof {
        lemma_view_ugens_prefix(primitive.inputs, primitive.inputs.len() as int);
        lemma_upper_degree_pos(pv.inputs);
    }
    let mut upr: usize = 0;
    let mut i: usize = 0;
    while i < primitive.inputs.len()
        invariant
            i <= primitive.inputs.len(),
            upr as int == spec_upper_degree(pv.inputs, i as int),
        decreases primitive.inputs.len() - i,
    {
        match &*primitive.inputs[i] {
            Ugen::Mce(m) => {
                proof {
                    lemma_view_ugens_prefix(m.ugens, m.ugens.len() as int);
                }
                if m.ugens.len() > upr {
                    upr = m.ugens.len();
                }
            },
            _ => {},
        }
        i = i + 1;
    }
    proof {
        assert(upr as int == spec_upper_degree(pv.inputs, nn));
        assert(upr >= 1);
    }
    let mut ext: Vec<UgenList> = Vec::new();
    let mut j: usize = 0;
    while j < primitive.inputs.len()
        invariant
            j <= primitive.inputs.len(),
            ext.len() == j,
            upr >= 1,
            upr as int == spec_upper_degree(pv.inputs, nn),
            forall|b: int| 0 <= b < j ==> (#[trigger] ext@[b]).len() == upr,
            forall|b: int|
                0 <= b < j ==> view_ugens(#[trigger] ext@[b]) == spec_mce_extend(
                    upr as int,
                    pv.inputs[b],
                ),
        decreases primitive.inputs.len() - j,
    {
        proof {
            assert(spec_wf_mce(pv.inputs[j as int]));
            lemma_mce_extend_wf(upr as int, pv.inputs[j as int], 0);
        }
        let e = mce_extend_n(upr, &*primitive.inputs[j]);
        ext.push(e);
        j = j + 1;
    }
    let iet = transposer(ext);
    let mut out: Vec<Primitive> = Vec::new();
    let mut k: usize = 0;
    proof {
        assert(iet.len() == upr);
        assert forall|a: int, b: int|
            0 <= a < iet.len() && 0 <= b < primitive.inputs.len() implies view_ugen(
            *(#[trigger] iet@[a]@[b]),
        ) == spec_mce_extend(upr as int, pv.inputs[b])[a] by {
            lemma_view_ugens_prefix(ext@[b], ext@[b].len() as int);
            assert(view_ugen(*iet@[a]@[b]) == view_ugen(*ext@[b]@[a]));
            assert(view_ugens(ext@[b])[a] == view_ugen(*ext@[b]@[a]));
        }
    }
    while k < iet.len()
        invariant
            k <= iet.len(),
            iet.len() == upr,
            out.len() == k,
            forall|a: int| 0 <= a < iet.len() ==> (#[trigger] iet@[a]).len()
                == primitive.inputs.len(),
            forall|a: int, b: int|
                0 <= a < iet.len() && 0 <= b < primitive.inputs.len() ==> view_ugen(
                    *(#[trigger] iet@[a]@[b]),
                ) == spec_mce_extend(upr as int, pv.inputs[b])[a],
            forall|a: int| 0 <= a < k ==> (#[trigger] out@[a])@ == spec_rowp(pv, a),
        decreases iet.len() - k,
    {
        let row_inputs = dup_ugen_list(&iet[k]);
        let row = Primitive {
            name: primitive.name.clone(),
            inputs: row_inputs,
            outputs: dup_rates(&primitive.outputs),
            special: primitive.special,
            index: primitive.index,
            rate: primitive.rate,
        };
        proof {
            lemma_view_ugens_prefix(iet@[k as int], iet@[k as int].len() as int);
            lemma_view_ugens_prefix(row.inputs, row.inputs.len() as int);
            assert(row@.inputs =~= spec_rowp(pv, k as int).inputs);
            assert(row@ == spec_rowp(pv, k as int));
        }
        out.push(row);
        k = k + 1;
    }
    out
}

/// Applies the cross-product transform to a primitive with bundle inputs:
/// one primitive per channel up to the largest bundle degree, wrapped as a
/// bundle, as `spec_mce_transform`.
#[verifier::loop_isolation(false)]
pub fn mce_transform(ugen: &Ugen) -> (r: Ugen)
    requires
        ugen@ is Primitive,
        spec_wf_mce_list(ugen@->Primitive_prim.inputs),
        spec_has_mce_input(ugen@->Primitive_prim.inputs),
    ensures
        r@ == spec_mce_transform(ugen@->Primitive_prim),
{
    match ugen {
        Ugen::Primitive(primitive) => {
            let ghost pv = primitive@;
            let rows = transform_rows(primitive);
            let mut out: UgenList = Vec::new();
            let mut k: usize = 0;
            while k < rows.len()
                invariant
                    k <= rows.len(),
                    out.len() == k,
                    forall|a: int| 0 <= a < rows.len() ==> (#[trigger] rows@[a])@
                        == spec_rowp(pv, a),
                    forall|a: int|
                        0 <= a < k ==> view_ugen(*(#[trigger] out@[a]))
                            == (UgenV::Primitive { prim: spec_rowp(pv, a) }),
                decreases rows.len() - k,
            {
                out.push(Box::new(Ugen::Primitive(crate::sc3::dup_primitive(&rows[k]))));
                k = k + 1;
            }
            proof {
                lemma_view_ugens_prefix(out, out.len() as int);
                assert(view_ugens(out) =~= spec_mce_transform(pv)->Mce_channels);
            }
            Ugen::Mce(Mce { ugens: out })
        },
        _ => vstd::pervasive::unreached(),
    }
}

/// Expands one primitive with bundle inputs: transform, then expand each
/// row, as `spec_expand_primitive`.
#[verifier::loop_isolation(false)]
fn expand_primitive(primitive: &Primitive) -> (r: Ugen)
    requires
        spec_wf_mce_list(primitive@.inputs),
        spec_has_mce_input(primitive@.inputs),
    ensures
        r@ == spec_expand_primitive(primitive@),
    decreases spec_vmax(primitive@), spec_vmce(primitive@),
{
    let ghost pv = primitive@;
    let rows = transform_rows(primitive);
    let mut out: UgenList = Vec::new();
    let mut k: usize = 0;
    while k < rows.len()
        invariant
            k <= rows.len(),
            out.len() == k,
            rows.len() == spec_upper_degree(pv.inputs, pv.inputs.len() as int),
            forall|a: int| 0 <= a < rows.len() ==> (#[trigger] rows@[a])@ == spec_rowp(pv, a),
            view_ugens(out) == spec_expand_rows(pv, k as int),
        decreases rows.len() - k,
    {
        proof {
            lemma_transform_row_measure(pv, k as int);
        }
        let e: Ugen = if has_mce_input(&rows[k]) {
            expand_primitive(&rows[k])
        } else {
            Ugen::Primitive(crate::sc3::dup_primitive(&rows[k]))
        };
        proof {
            lemma_view_ugens_prefix(out, out.len() as int);
        }
        out.push(Box::new(e));
        proof {
            lemma_view_ugens_prefix(out, out.len() as int);
            assert(view_ugens(out) =~= spec_expand_rows(pv, k + 1));
        }
        k = k + 1;
    }
    proof {
        lemma_view_ugens_prefix(out, out.len() as int);
    }
    Ugen::Mce(Mce { ugens: out })
}

/// Fully expands a tree, as `spec_mce_expand`: after expansion no
/// primitive reachable through bundles and merge left sides has a bundle
/// input.
#[verifier::loop_isolation(false)]
pub fn mce_expand(ugen: &Ugen) -> (r: Ugen)
    requires
        spec_wf_mce(ugen@),
    ensures
        r@ == spec_mce_expand(ugen@),
    decreases *ugen,
{
    match ugen {
        Ugen::Mce(mce) => {
            proof {
                reveal_with_fuel(spec_wf_mce, 2);
                reveal_with_fuel(spec_wf_mce_list, 2);
                lemma_view_ugens_prefix(mce.ugens, mce.ugens.len() as int);
            }
            let ghost chs = view_ugens(mce.ugens);
            let mut out: UgenList = Vec::new();
            let mut i: usize = 0;
            while i < mce.ugens.len()
                invariant
                    i <= mce.ugens.len(),
                    out.len() == i,
                    view_ugens(out) == spec_expand_channels(chs, i as int),
                decreases mce.ugens.len() - i,
            {
                proof {
                    assert(spec_wf_mce(chs[i as int]));
                }
                let e = mce_expand(&*mce.ugens[i]);
                proof {
                    lemma_view_ugens_prefix(out, out.len() as int);
                }
                out.push(Box::new(e));
                proof {
                    lemma_view_ugens_prefix(out, out.len() as int);
                    assert(view_ugens(out) =~= spec_expand_channels(chs, i + 1));
                }
                i = i + 1;
            }
            Ugen::Mce(Mce { ugens: out })
        },
        Ugen::Mrg(mrg) => Ugen::Mrg(
            Mrg {
                left: Box::new(mce_expand(&*mrg.left)),
                right: Box::new(dup_ugen(&*mrg.right)),
            },
        ),
        Ugen::Primitive(primitive) => {
            if has_mce_input(primitive) {
                expand_primitive(primitive)
            } else {
                dup_ugen(ugen)
            }
        },
        _ => dup_ugen(ugen),
    }
}

/// Returns channel `n` of a bundle.
pub fn mce_channel(n: i32, ugen: &Ugen) -> (r: Ugen)
    requires
        ugen@ is Mce,
        0 <= n < ugen@->Mce_channels.len(),
    ensures
        r@ == ugen@->Mce_channels[n as int],
{
    match ugen {
        Ugen::Mce(mce) => {
            proof {
                lemma_view_ugens_prefix(mce.ugens, mce.ugens.len() as int);
            }
            dup_ugen(&*mce.ugens[n as usize])
        },
        _ => vstd::pervasive::unreached(),
    }
}

/// The channels a tree splits into: a bundle's channels; for a merge, the
/// right attachment rides on channel zero only and the remaining channels
/// of the left side pass through raw; any other tree is one channel.
pub open spec fn spec_mce_channels(u: UgenV) -> Seq<UgenV>
    decreases u,
{
    match u {
        UgenV::Mce { channels } => channels,
        UgenV::Mrg { left, right } => {
            let lst = spec_mce_channels(*left);
            seq![UgenV::Mrg { left: Box::new(lst[0]), right }] + lst.subrange(
                1,
                lst.len() as int,
            )
        },
        _ => seq![u],
    }
}

/// Whether channel splitting is defined: a merge's left side must split
/// into more than one channel, or the right attachment would be lost.
pub open spec fn spec_channels_ok(u: UgenV) -> bool
    decreases u,
{
    match u {
        UgenV::Mce { .. } => true,
        UgenV::Mrg { left, .. } => spec_channels_ok(*left) && spec_mce_channels(*left).len()
            > 1,
        _ => true,
    }
}

/// Splits a tree into its channels, as `spec_mce_channels`.
#[verifier::loop_isolation(false)]
pub fn mce_channels(ugen: &Ugen) -> (r: UgenList)
    requires
        spec_channels_ok(ugen@),
    ensures
        view_ugens(r) == spec_mce_channels(ugen@),
    decreases *ugen,
{
    match ugen {
        Ugen::Mce(mce) => {
            proof {
                lemma_view_ugens_prefix(mce.ugens, mce.ugens.len() as int);
            }
            dup_ugen_list(&mce.ugens)
        },
        Ugen::Mrg(mrg) => {
            let lst = mce_channels(&*mrg.left);
            proof {
                lemma_view_ugens_prefix(lst, lst.len() as int);
            }
            let mrg1 = Ugen::Mrg(
                Mrg {
                    left: Box::new(dup_ugen(&*lst[0])),
                    right: Box::new(dup_ugen(&*mrg.right)),
                },
            );
            let mut out: UgenList = Vec::new();
            out.push(Box::new(mrg1));
            let ghost lv = spec_mce_channels(*ugen@->Mrg_left);
            let mut j: usize = 1;
            while j < lst.len()
                invariant
                    1 <= j <= lst.len(),
                    out.len() == j,
                    lv == view_ugens(lst),
                    lst.len() == lv.len(),
                    view_ugen(*out@[0]) == (UgenV::Mrg {
                        left: Box::new(lv[0]),
                        right: ugen@->Mrg_right,
                    }),
                    forall|b: int| 1 <= b < j ==> view_ugen(*(#[trigger] out@[b])) == lv[b],
                    forall|b: int| 0 <= b < lst.len() ==> view_ugen(*(#[trigger] lst@[b]))
                        == lv[b],
                decreases lst.len() - j,
            {
                out.push(Box::new(dup_ugen(&*lst[j])));
                j = j + 1;
            }
            proof {
                lemma_view_ugens_prefix(out, out.len() as int);
                assert(view_ugens(out) =~= spec_mce_channels(ugen@));
            }
            out
        },
        _ => {
            let mut out: UgenList = Vec::new();
            out.push(Box::new(dup_ugen(ugen)));
            proof {
                lemma_view_ugens_prefix(out, 1);
                assert(view_ugens(out) =~= spec_mce_channels(ugen@));
            }
            out
        },
    }
}

/// Splitting of multi-output primitives: one proxy per declared output,
/// wrapped as a bundle; single-output primitives are left alone; the
/// rewrite passes through bundles and merge left sides.
pub open spec fn spec_proxify(u: UgenV) -> UgenV
    decreases u, 1int,
{
    match u {
        UgenV::Mce { channels } => UgenV::Mce {
            channels: spec_proxify_channels(channels, channels.len() as int),
        },
        UgenV::Mrg { left, right } => UgenV::Mrg {
            left: Box::new(spec_proxify(*left)),
            right,
        },
        UgenV::Primitive { prim } => if prim.outputs.len() < 2 {
            u
        } else {
            UgenV::Mce {
                channels: Seq::new(
                    prim.outputs.len(),
                    |i: int| UgenV::Proxy { primitive: prim, index: i },
                ),
            }
        },
        _ => u,
    }
}

/// The proxified forms of the first `n` channels.
pub open spec fn spec_proxify_channels(chs: Seq<UgenV>, n: int) -> Seq<UgenV>
    decreases chs, n,
{
    if n <= 0 || n > chs.len() {
        Seq::empty()
    } else {
        spec_proxify_channels(chs, n - 1).push(spec_proxify(chs[n - 1]))
    }
}

/// Whether the output-splitting rewrite is defined: only bundles, merges
/// and primitives may stand where it looks, and an output count must fit
/// the machine width of a proxy index.
pub open spec fn spec_proxifyable(u: UgenV) -> bool
    decreases u,
{
    match u {
        UgenV::Mce { channels } => spec_proxifyable_list(channels),
        UgenV::Mrg { left, .. } => spec_proxifyable(*left),
        UgenV::Primitive { prim } => prim.outputs.len() <= i32::MAX,
        _ => false,
    }
}

/// Whether every tree of a list admits the output-splitting rewrite.
pub open spec fn spec_proxifyable_list(l: Seq<UgenV>) -> bool
    decreases l,
{
    forall|i: int| 0 <= i < l.len() ==> spec_proxifyable(#[trigger] l[i])
}

/// Splits multi-output primitives into per-output proxies, as
/// `spec_proxify`.
#[verifier::loop_isolation(false)]
pub fn proxify(ugen: &Ugen) -> (r: Ugen)
    requires
        spec_proxifyable(ugen@),
    ensures
        r@ == spec_proxify(ugen@),
    decreases *ugen,
{
    match ugen {
        Ugen::Mce(mce) => {
            proof {
                reveal_with_fuel(spec_proxifyable, 2);
                reveal_with_fuel(spec_proxifyable_list, 2);
                lemma_view_ugens_prefix(mce.ugens, mce.ugens.len() as int);
            }
            let ghost chs = view_ugens(mce.ugens);
            let mut out: UgenList = Vec::new();
            let mut i: usize = 0;
            while i < mce.ugens.len()
                invariant
                    i <= mce.ugens.len(),
                    out.len() == i,
                    view_ugens(out) == spec_proxify_channels(chs, i as int),
                decreases mce.ugens.len() - i,
            {
                proof {
                    assert(spec_proxifyable(chs[i as int]));
                }
                let e = proxify(&*mce.ugens[i]);
                proof {
                    lemma_view_ugens_prefix(out, out.len() as int);
                }
                out.push(Box::new(e));
                proof {
                    lemma_view_ugens_prefix(out, out.len() as int);
                    assert(view_ugens(out) =~= spec_proxify_channels(chs, i + 1));
                }
                i = i + 1;
            }
            Ugen::Mce(Mce { ugens: out })
        },
        Ugen::Mrg(mrg) => Ugen::Mrg(
            Mrg {
                left: Box::new(proxify(&*mrg.left)),
                right: Box::new(dup_ugen(&*mrg.right)),
            },
        ),
        Ugen::Primitive(primitive) => {
            if primitive.outputs.len() < 2 {
                dup_ugen(ugen)
            } else {
                let ghost pv = primitive@;
                let ln = primitive.outputs.len();
                let mut out: UgenList = Vec::new();
                let mut i: usize = 0;
                while i < ln
                    invariant
                        i <= ln,
                        out.len() == i,
                        ln == pv.outputs.len(),
                        pv == primitive@,
                        forall|b: int|
                            0 <= b < i ==> view_ugen(*(#[trigger] out@[b]))
                                == (UgenV::Proxy { primitive: pv, index: b }),
                    decreases ln - i,
                {
                    let proxy = Ugen::Proxy(
                        Proxy {
                            index: i as i32,
                            primitive: crate::sc3::dup_primitive(primitive),
                        },
                    );
                    out.push(Box::new(proxy));
                    i = i + 1;
                }
                proof {
                    lemma_view_ugens_prefix(out, out.len() as int);
                    assert(view_ugens(out) =~= spec_proxify(ugen@)->Mce_channels);
                }
                Ugen::Mce(Mce { ugens: out })
            }
        },
        _ => vstd::pervasive::unreached(),
    }
}

/// Whether a tree is fully expanded: no primitive reachable through
/// bundles and merge left sides has a bundle input.
pub open spec fn spec_expanded(u: UgenV) -> bool
    decreases u,
{
    match u {
        UgenV::Mce { channels } => spec_expanded_list(channels),
        UgenV::Mrg { left, .. } => spec_expanded(*left),
        UgenV::Primitive { prim } => !spec_has_mce_input(prim.inputs),
        _ => true,
    }
}

/// Whether every tree of a list is fully expanded.
pub open spec fn spec_expanded_list(l: Seq<UgenV>) -> bool
    decreases l,
{
    forall|i: int| 0 <= i < l.len() ==> spec_expanded(#[trigger] l[i])
}

/// Every expanded row of a primitive's transform is fully expanded.
proof fn lemma_expand_rows_expanded(p: PrimitiveV, k: int)
    requires
        spec_wf_mce_list(p.inputs),
        spec_has_mce_input(p.inputs),
    ensures
        spec_expanded_list(spec_expand_rows(p, k)),
    decreases spec_vmax(p), spec_vmce(p), 0int, k,
{
    reveal_with_fuel(spec_expanded, 2);
    if 0 < k <= spec_upper_degree(p.inputs, p.inputs.len() as int) {
        lemma_expand_rows_expanded(p, k - 1);
        lemma_transform_row_measure(p, k - 1);
        let row = spec_rowp(p, k - 1);
        if spec_has_mce_input(row.inputs) {
            lemma_expand_primitive_expanded(row);
        }
        assert forall|i: int|
            0 <= i < spec_expand_rows(p, k).len() implies spec_expanded(
            #[trigger] spec_expand_rows(p, k)[i],
        ) by {
            if i < spec_expand_rows(p, k - 1).len() {
                assert(spec_expand_rows(p, k)[i] == spec_expand_rows(p, k - 1)[i]);
            }
        }
    }
}

/// The expansion of one primitive is fully expanded.
proof fn lemma_expand_primitive_expanded(p: PrimitiveV)
    requires
        spec_wf_mce_list(p.inputs),
    ensures
        spec_expanded(spec_expand_primitive(p)),
    decreases spec_vmax(p), spec_vmce(p), 1int, 0int,
{
    reveal_with_fuel(spec_expanded, 2);
    if spec_has_mce_input(p.inputs) {
        lemma_expand_rows_expanded(p, spec_upper_degree(p.inputs, p.inputs.len() as int));
    }
}

/// Expansion leaves every well-formed tree fully expanded.
pub proof fn lemma_mce_expand_expanded(u: UgenV)
    requires
        spec_wf_mce(u),
    ensures
        spec_expanded(spec_mce_expand(u)),
    decreases u, 1int,
{
    reveal_with_fuel(spec_wf_mce, 2);
    reveal_with_fuel(spec_wf_mce_list, 2);
    reveal_with_fuel(spec_expanded, 2);
    reveal_with_fuel(spec_expanded_list, 2);
    match u {
        UgenV::Mce { channels } => {
            lemma_expand_channels_expanded(channels, channels.len() as int);
        },
        UgenV::Mrg { left, .. } => {
            lemma_mce_expand_expanded(*left);
        },
        UgenV::Primitive { prim } => {
            lemma_expand_primitive_expanded(prim);
        },
        _ => {},
    }
}

/// The expansions of well-formed channels are all fully expanded.
proof fn lemma_expand_channels_expanded(chs: Seq<UgenV>, n: int)
    requires
        spec_wf_mce_list(chs),
        n <= chs.len(),
    ensures
        spec_expanded_list(spec_expand_channels(chs, n)),
    decreases chs, 0int, n,
{
    reveal_with_fuel(spec_expanded_list, 2);
    if 0 < n <= chs.len() {
        lemma_expand_channels_expanded(chs, n - 1);
        lemma_mce_expand_expanded(chs[n - 1]);
        assert forall|i: int|
            0 <= i < spec_expand_channels(chs, n).len() implies spec_expanded(
            #[trigger] spec_expand_channels(chs, n)[i],
        ) by {
            if i < spec_expand_channels(chs, n - 1).len() {
                assert(spec_expand_channels(chs, n)[i] == spec_expand_channels(chs, n - 1)[i]);
            }
        }
    }
}

/// Expansion does nothing to a tree that is already fully expanded.
pub proof fn lemma_mce_expand_identity(u: UgenV)
    requires
        spec_expanded(u),
    ensures
        spec_mce_expand(u) == u,
    decreases u, 1int,
{
    reveal_with_fuel(spec_expanded, 2);
    reveal_with_fuel(spec_expanded_list, 2);
    match u {
        UgenV::Mce { channels } => {
            lemma_expand_channels_identity(channels, channels.len() as int);
            assert(spec_expand_channels(channels, channels.len() as int) =~= channels);
        },
        UgenV::Mrg { left, .. } => {
            lemma_mce_expand_identity(*left);
        },
        _ => {},
    }
}

/// Expanding already-expanded channels reproduces them.
proof fn lemma_expand_channels_identity(chs: Seq<UgenV>, n: int)
    requires
        spec_expanded_list(chs),
        n <= chs.len(),
    ensures
        spec_expand_channels(chs, n).len() == (if n <= 0 { 0int } else { n }),
        forall|i: int| 0 <= i < n ==> #[trigger] spec_expand_channels(chs, n)[i] == chs[i],
    decreases chs, 0int, n,
{
    if 0 < n <= chs.len() {
        lemma_expand_channels_identity(chs, n - 1);
        lemma_mce_expand_identity(chs[n - 1]);
    }
}

/// Expansion is idempotent: expanding an expanded tree changes nothing,
/// so one pass suffices for any well-formed tree.
pub proof fn lemma_mce_expand_idempotent(u: UgenV)
    requires
        spec_wf_mce(u),
    ensures
        spec_mce_expand(spec_mce_expand(u)) == spec_mce_expand(u),
{
    lemma_mce_expand_expanded(u);
    lemma_mce_expand_identity(spec_mce_expand(u));
}

/// The rows of a primitive's expansion all admit the output-splitting
/// rewrite.
proof fn lemma_expand_rows_proxifyable(p: PrimitiveV, k: int)
    requires
        spec_wf_mce_list(p.inputs),
        spec_has_mce_input(p.inputs),
        p.outputs.len() <= i32::MAX,
    ensures
        spec_proxifyable_list(spec_expand_rows(p, k)),
    decreases spec_vmax(p), spec_vmce(p), 0int, k,
{
    reveal_with_fuel(spec_proxifyable, 2);
    if 0 < k <= spec_upper_degree(p.inputs, p.inputs.len() as int) {
        lemma_expand_rows_proxifyable(p, k - 1);
        lemma_transform_row_measure(p, k - 1);
        let row = spec_rowp(p, k - 1);
        if spec_has_mce_input(row.inputs) {
            lemma_expand_primitive_proxifyable(row);
        }
        assert forall|i: int|
            0 <= i < spec_expand_rows(p, k).len() implies spec_proxifyable(
            #[trigger] spec_expand_rows(p, k)[i],
        ) by {
            if i < spec_expand_rows(p, k - 1).len() {
                assert(spec_expand_rows(p, k)[i] == spec_expand_rows(p, k - 1)[i]);
            }
        }
    }
}

/// The expansion of one primitive admits the output-splitting rewrite.
pub proof fn lemma_expand_primitive_proxifyable(p: PrimitiveV)
    requires
        spec_wf_mce_list(p.inputs),
        p.outputs.len() <= i32::MAX,
    ensures
        spec_proxifyable(spec_expand_primitive(p)),
    decreases spec_vmax(p), spec_vmce(p), 1int, 0int,
{
    reveal_with_fuel(spec_proxifyable, 2);
    if spec_has_mce_input(p.inputs) {
        lemma_expand_rows_proxifyable(p, spec_upper_degree(p.inputs, p.inputs.len() as int));
    }
}

/// The channels a well-formed tree splits into are well formed.
pub proof fn lemma_mce_channels_wf(u: UgenV)
    requires
        spec_wf_mce(u),
        spec_channels_ok(u),
    ensures
        forall|i: int|
            0 <= i < spec_mce_channels(u).len() ==> spec_wf_mce(
                #[trigger] spec_mce_channels(u)[i],
            ),
        spec_mce_channels(u).len() >= 1,
    decreases u,
{
    reveal_with_fuel(spec_wf_mce, 2);
    reveal_with_fuel(spec_wf_mce_list, 2);
    match u {
        UgenV::Mrg { left, right } => {
            lemma_mce_channels_wf(*left);
            let lst = spec_mce_channels(*left);
            assert forall|i: int|
                0 <= i < spec_mce_channels(u).len() implies spec_wf_mce(
                #[trigger] spec_mce_channels(u)[i],
            ) by {
                if i >= 1 {
                    assert(spec_mce_channels(u)[i] == lst.subrange(1, lst.len() as int)[i - 1]);
                }
            }
        },
        _ => {},
    }
}

} // verus!
