//! The construction surface: generic constructors for oscillator- and
//! filter-style primitives and operators, and the play-message builder.
//! Every constructor normalizes its tree through multi-channel expansion
//! and output splitting before handing it to callers.

use vstd::prelude::*;

use crate::mce::mce_channels;
use crate::mce::mce_expand;
use crate::mce::proxify;
use crate::mce::lemma_expand_primitive_proxifyable;
use crate::mce::lemma_mce_channels_wf;
use crate::mce::spec_channels_ok;
use crate::mce::spec_mce_channels;
use crate::mce::spec_mce_expand;
use crate::mce::spec_proxify;
use crate::mce::spec_wf_mce;
use crate::mce::spec_wf_mce_list;
use crate::osc::Datum;
use crate::osc::DatumV;
use crate::osc::Message;
use crate::osc::encode_message;
use crate::osc::lemma_view_data_prefix;
use crate::osc::spec_encode_message;
use crate::osc::view_data;
use crate::graphdef::spec_encode_graphdef;
use crate::graphdef::spec_graph_sizes_ok;
use crate::graphdef::synthdef;
use crate::sc3::IConst;
use crate::sc3::Primitive;
use crate::sc3::PrimitiveV;
use crate::sc3::Rate;
use crate::sc3::RateList;
use crate::sc3::Ugen;
use crate::sc3::UgenList;
use crate::sc3::UgenV;
use crate::sc3::dup_ugen;
use crate::sc3::rate_id;
use crate::sc3::rate_of;
use crate::sc3::spec_mce_max_rate;
use crate::sc3::view_ugen;
use crate::sc3::view_ugens;
use crate::sc3::lemma_view_ugens_prefix;

verus! {

/// The normalized tree of a generic primitive: build it, expand the
/// channels, split the outputs.
pub open spec fn spec_mk_ugen(
    rate: Rate,
    name: Seq<char>,
    inputs: Seq<UgenV>,
    outputs: Seq<Rate>,
    ind: int,
    sp: int,
) -> UgenV {
    spec_proxify(
        spec_mce_expand(
            UgenV::Primitive {
                prim: PrimitiveV { name, inputs, outputs, special: sp, index: ind, rate },
            },
        ),
    )
}

/// Builds a generic primitive and normalizes it, as `spec_mk_ugen`.
pub fn mk_ugen(
    rate: Rate,
    name: &String,
    inputs: UgenList,
    outputs: RateList,
    ind: i32,
    sp: i32,
) -> (r: Ugen)
    requires
        spec_wf_mce_list(view_ugens(inputs)),
        outputs@.len() <= i32::MAX,
    ensures
        r@ == spec_mk_ugen(rate, name@, view_ugens(inputs), outputs@, ind as int, sp as int),
{
    let ghost iv = view_ugens(inputs);
    let spr1 = Primitive {
        name: name.clone(),
        inputs,
        outputs,
        special: sp,
        index: ind,
        rate,
    };
    let ghost pv = spr1@;
    proof {
        assert(pv.inputs == iv);
    }
    let pr1 = Ugen::Primitive(spr1);
    proof {
        crate::mce::lemma_upper_degree_nonneg(pv.inputs, pv.inputs.len() as int);
        assert(spec_wf_mce(pr1@));
    }
    let ex = mce_expand(&pr1);
    proof {
        lemma_expand_primitive_proxifyable(pv);
    }
    proxify(&ex)
}

/// A list made of `ou` copies of one rate.
pub open spec fn spec_rates(rate: Rate, ou: int) -> Seq<Rate> {
    Seq::new(ou as nat, |i: int| rate)
}

/// Builds `ou` copies of one rate.
fn mk_rates(rate: Rate, ou: i32) -> (r: RateList)
    requires
        ou >= 0,
    ensures
        r@ == spec_rates(rate, ou as int),
{
    let mut rl: RateList = Vec::new();
    let mut i: i32 = 0;
    while i < ou
        invariant
            0 <= i <= ou,
            rl@.len() == i as int,
            forall|j: int| 0 <= j < i ==> rl@[j] == rate,
        decreases ou - i,
    {
        rl.push(rate);
        i = i + 1;
    }
    proof {
        assert(rl@ =~= spec_rates(rate, ou as int));
    }
    rl
}

/// Builds an oscillator-style primitive: `ou` outputs at the given rate,
/// no identity, no special tag.
pub fn mk_oscillator(rate: Rate, name: &str, inputs: UgenList, ou: i32) -> (r: Ugen)
    requires
        spec_wf_mce_list(view_ugens(inputs)),
        ou >= 0,
    ensures
        r@ == spec_mk_ugen(
            rate,
            name@,
            view_ugens(inputs),
            spec_rates(rate, ou as int),
            0,
            0,
        ),
{
    let rl = mk_rates(rate, ou);
    mk_ugen(rate, &name.to_owned(), inputs, rl, 0, 0)
}

/// Builds an oscillator-style primitive that must never merge with a
/// structurally equal one: `uid` is its disambiguating identity, handed in
/// by the caller's allocator.
pub fn mk_osc_id(rate: Rate, name: &str, inputs: UgenList, ou: i32, uid: i32) -> (r: Ugen)
    requires
        spec_wf_mce_list(view_ugens(inputs)),
        ou >= 0,
    ensures
        r@ == spec_mk_ugen(
            rate,
            name@,
            view_ugens(inputs),
            spec_rates(rate, ou as int),
            uid as int,
            0,
        ),
{
    let rl = mk_rates(rate, ou);
    mk_ugen(rate, &name.to_owned(), inputs, rl, uid, 0)
}

/// Appends the channels of `ugen` to a copy of `inputs`.
#[verifier::loop_isolation(false)]
fn append_channels(inputs: &UgenList, ugen: &Ugen) -> (r: UgenList)
    requires
        spec_channels_ok(ugen@),
    ensures
        view_ugens(r) == view_ugens(*inputs) + spec_mce_channels(ugen@),
{
    proof {
        lemma_view_ugens_prefix(*inputs, inputs.len() as int);
    }
    let mut out: UgenList = Vec::new();
    let mut i: usize = 0;
    while i < inputs.len()
        invariant
            i <= inputs.len(),
            out.len() == i,
            forall|j: int| 0 <= j < i ==> view_ugen(*(#[trigger] out@[j])) == view_ugens(
                *inputs,
            )[j],
        decreases inputs.len() - i,
    {
        out.push(Box::new(dup_ugen(&*inputs[i])));
        i = i + 1;
    }
    let channels = mce_channels(ugen);
    proof {
        lemma_view_ugens_prefix(channels, channels.len() as int);
    }
    let mut k: usize = 0;
    while k < channels.len()
        invariant
            k <= channels.len(),
            out.len() == inputs.len() + k,
            forall|j: int|
                0 <= j < inputs.len() ==> view_ugen(*(#[trigger] out@[j])) == view_ugens(
                    *inputs,
                )[j],
            forall|j: int|
                0 <= j < k ==> view_ugen(*(#[trigger] out@[inputs.len() + j]))
                    == spec_mce_channels(ugen@)[j],
        decreases channels.len() - k,
    {
        out.push(Box::new(dup_ugen(&*channels[k])));
        k = k + 1;
    }
    proof {
        lemma_view_ugens_prefix(out, out.len() as int);
        assert forall|i: int|
            0 <= i < out.len() implies view_ugen(*out@[i]) == (view_ugens(*inputs)
            + spec_mce_channels(ugen@))[i] by {
            if i >= inputs.len() {
                let j = i - inputs.len();
                assert(view_ugen(*out@[inputs.len() + j]) == spec_mce_channels(ugen@)[j]);
            }
        }
        assert(view_ugens(out) =~= view_ugens(*inputs) + spec_mce_channels(ugen@));
    }
    out
}

/// Builds an oscillator-style primitive whose trailing inputs are the
/// channels of a multi-channel tree.
pub fn mk_osc_me(rate: Rate, name: &str, inputs: UgenList, ugen: &Ugen, ou: i32) -> (r: Ugen)
    requires
        spec_wf_mce_list(view_ugens(inputs)),
        spec_wf_mce(ugen@),
        spec_channels_ok(ugen@),
        ou >= 0,
    ensures
        r@ == spec_mk_ugen(
            rate,
            name@,
            view_ugens(inputs) + spec_mce_channels(ugen@),
            spec_rates(rate, ou as int),
            0,
            0,
        ),
{
    let rl = mk_rates(rate, ou);
    let inps = append_channels(&inputs, ugen);
    proof {
        lemma_mce_channels_wf(ugen@);
        assert(spec_wf_mce_list(view_ugens(inps)));
    }
    mk_ugen(rate, &name.to_owned(), inps, rl, 0, 0)
}

/// The maximum rate of a list of trees, from control rate up.
pub open spec fn spec_max_input_rate(inputs: Seq<UgenV>) -> Rate {
    spec_mce_max_rate(inputs, inputs.len() as int)
}

/// Computes the maximum rate of the input trees.
#[verifier::loop_isolation(false)]
fn max_input_rate(inputs: &UgenList) -> (r: Rate)
    ensures
        r == spec_max_input_rate(view_ugens(*inputs)),
{
    proof {
        lemma_view_ugens_prefix(*inputs, inputs.len() as int);
    }
    let mut max: Rate = Rate::RateKr;
    let mut i: usize = 0;
    while i < inputs.len()
        invariant
            i <= inputs.len(),
            max == spec_mce_max_rate(view_ugens(*inputs), i as int),
        decreases inputs.len() - i,
    {
        let cr = rate_of(&*inputs[i]);
        if rate_id(cr) > rate_id(max) {
            max = cr;
        }
        i = i + 1;
    }
    max
}

/// Builds a filter-style primitive: its rate and its `ou` output rates are
/// the maximum rate of its inputs.
pub fn mk_filter(name: &str, inputs: UgenList, ou: i32) -> (r: Ugen)
    requires
        spec_wf_mce_list(view_ugens(inputs)),
        ou >= 0,
    ensures
        r@ == spec_mk_ugen(
            spec_max_input_rate(view_ugens(inputs)),
            name@,
            view_ugens(inputs),
            spec_rates(spec_max_input_rate(view_ugens(inputs)), ou as int),
            0,
            0,
        ),
{
    let maxrate = max_input_rate(&inputs);
    let ou_list = mk_rates(maxrate, ou);
    mk_ugen(maxrate, &name.to_owned(), inputs, ou_list, 0, 0)
}

/// Builds a filter-style primitive with a caller-allocated identity.
pub fn mk_filter_id(name: &str, inputs: UgenList, ou: i32, uid: i32) -> (r: Ugen)
    requires
        spec_wf_mce_list(view_ugens(inputs)),
        ou >= 0,
    ensures
        r@ == spec_mk_ugen(
            spec_max_input_rate(view_ugens(inputs)),
            name@,
            view_ugens(inputs),
            spec_rates(spec_max_input_rate(view_ugens(inputs)), ou as int),
            uid as int,
            0,
        ),
{
    let maxrate = max_input_rate(&inputs);
    let ou_list = mk_rates(maxrate, ou);
    mk_ugen(maxrate, &name.to_owned(), inputs, ou_list, uid, 0)
}

/// Builds a filter-style primitive whose trailing inputs are the channels
/// of a multi-channel tree.
pub fn mk_filter_mce(name: &str, inputs: UgenList, ugen: &Ugen, ou: i32) -> (r: Ugen)
    requires
        spec_wf_mce_list(view_ugens(inputs)),
        spec_wf_mce(ugen@),
        spec_channels_ok(ugen@),
        ou >= 0,
    ensures
        r@ == spec_mk_ugen(
            spec_max_input_rate(view_ugens(inputs) + spec_mce_channels(ugen@)),
            name@,
            view_ugens(inputs) + spec_mce_channels(ugen@),
            spec_rates(
                spec_max_input_rate(view_ugens(inputs) + spec_mce_channels(ugen@)),
                ou as int,
            ),
            0,
            0,
        ),
{
    let inps = append_channels(&inputs, ugen);
    proof {
        lemma_mce_channels_wf(ugen@);
        assert(spec_wf_mce_list(view_ugens(inps)));
    }
    mk_filter(name, inps, ou)
}

/// Builds a two-operand operation primitive: one output at the maximum
/// input rate, tagged with the operator-specific special code.
pub fn mk_operator(name: &str, inputs: UgenList, sp: i32) -> (r: Ugen)
    requires
        spec_wf_mce_list(view_ugens(inputs)),
    ensures
        r@ == spec_mk_ugen(
            spec_max_input_rate(view_ugens(inputs)),
            name@,
            view_ugens(inputs),
            spec_rates(spec_max_input_rate(view_ugens(inputs)), 1),
            0,
            sp as int,
        ),
{
    let maxrate = max_input_rate(&inputs);
    let outs = mk_rates(maxrate, 1);
    mk_ugen(maxrate, &name.to_owned(), inputs, outs, 0, sp)
}

/// The normalized tree that routes a signal to output bus `a`.
pub open spec fn spec_out(a: int, u: UgenV) -> UgenV {
    let inps = seq![UgenV::IConst { value: a }] + spec_mce_channels(u);
    spec_mk_ugen(
        spec_max_input_rate(inps),
        "Out"@,
        inps,
        spec_rates(spec_max_input_rate(inps), 0),
        0,
        0,
    )
}

/// Routes a signal to output bus `a`: an `Out` primitive over the bus
/// number and the signal's channels.
pub fn out(a: i32, ugen: &Ugen) -> (r: Ugen)
    requires
        spec_wf_mce(ugen@),
        spec_channels_ok(ugen@),
    ensures
        r@ == spec_out(a as int, ugen@),
{
    let mut inputs: UgenList = Vec::new();
    inputs.push(Box::new(Ugen::IConst(IConst { value: a })));
    proof {
        lemma_view_ugens_prefix(inputs, 1);
        assert(view_ugens(inputs) =~= seq![UgenV::IConst { value: a as int }]);
    }
    mk_filter_mce("Out", inputs, ugen, 0)
}

/// Builds the two messages that play a tree: the synth-definition of the
/// tree routed to bus zero, sent as a blob, and the request to start one
/// instance of it. The transport sends them in order.
pub fn sc_play(ugen: &Ugen) -> (msgs: Vec<Vec<u8>>)
    requires
        spec_wf_mce(ugen@),
        spec_channels_ok(ugen@),
        crate::graph::spec_root_ok(spec_out(0, ugen@)),
        crate::graph::spec_compilable(crate::graph::spec_prepare_root(spec_out(0, ugen@))),
        crate::graph::spec_ugen_size(crate::graph::spec_prepare_root(spec_out(0, ugen@)))
            <= i32::MAX,
        spec_graph_sizes_ok(crate::graph::spec_synth(spec_out(0, ugen@))),
        spec_encode_graphdef(
            "anonymous"@,
            crate::graph::spec_synth(spec_out(0, ugen@)),
        ).len() <= i32::MAX,
    ensures
        msgs@.len() == 2,
        msgs@[0]@ == spec_encode_message(
            "/d_recv"@,
            seq![
                DatumV::Blob(
                    spec_encode_graphdef(
                        "anonymous"@,
                        crate::graph::spec_synth(spec_out(0, ugen@)),
                    ),
                ),
            ],
        ),
        msgs@[1]@ == spec_encode_message(
            "/s_new"@,
            seq![
                DatumV::Str("anonymous"@),
                DatumV::Int(-1),
                DatumV::Int(1),
                DatumV::Int(1),
            ],
        ),
{
    proof {
        reveal_strlit("anonymous");
        assert(vstd::utf8::is_ascii_chars("anonymous"@)) by {
            reveal_strlit("anonymous");
        }
        vstd::utf8::is_ascii_chars_encode_utf8("anonymous"@);
    }
    let u1 = out(0, ugen);
    let synd = synthdef("anonymous", &u1);
    let mut d1: Vec<Datum> = Vec::new();
    d1.push(Datum::Blob(synd));
    let msg1 = Message { name: "/d_recv".to_owned(), l_datum: d1 };
    proof {
        lemma_view_data_prefix(msg1.l_datum, 1);
        assert(view_data(msg1.l_datum) =~= seq![
            DatumV::Blob(
                spec_encode_graphdef(
                    "anonymous"@,
                    crate::graph::spec_synth(spec_out(0, ugen@)),
                ),
            ),
        ]);
    }
    let b1 = encode_message(&msg1);
    let mut d2: Vec<Datum> = Vec::new();
    d2.push(Datum::Str("anonymous".to_owned()));
    d2.push(Datum::Int(-1));
    d2.push(Datum::Int(1));
    d2.push(Datum::Int(1));
    let msg2 = Message { name: "/s_new".to_owned(), l_datum: d2 };
    proof {
        lemma_view_data_prefix(msg2.l_datum, 4);
        assert(view_data(msg2.l_datum) =~= seq![
            DatumV::Str("anonymous"@),
            DatumV::Int(-1),
            DatumV::Int(1),
            DatumV::Int(1),
        ]);
    }
    let b2 = encode_message(&msg2);
    let mut msgs: Vec<Vec<u8>> = Vec::new();
    msgs.push(b1);
    msgs.push(b2);
    msgs
}

} // verus!
