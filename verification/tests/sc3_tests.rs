use rsc3::graph::{
    find_c_p, get_node_c, get_node_k, get_node_u, mk_node_c, mk_node_k, Graph, Node, NodeC,
    NodeK, NodeU,
};
use rsc3::graphdef::mk_map;
use rsc3::mce::{
    extend, mce_channel, mce_channels, mce_degree, mce_expand, mce_extend, mce_transform,
    proxify, transposer,
};
use rsc3::osc::{decode_i16, encode_i16};
use rsc3::sc3::{
    compare_ugen, dup_ugen, iota, is_sink, max_num, rate_of, Control, FConst, IConst, Mce,
    Mrg, Primitive, Rate, Ugen, UgenList,
};

fn iconst(val: i32) -> Box<Ugen> {
    Box::new(Ugen::IConst(IConst { value: val }))
}

fn mk_ugenlist(vargs: &[&Ugen]) -> UgenList {
    let mut out: UgenList = Vec::new();
    for elem in vargs {
        out.push(Box::new(dup_ugen(elem)));
    }
    out
}

fn mk_mce(ugens: UgenList) -> Ugen {
    Ugen::Mce(Mce { ugens })
}

#[test]
fn test1() {
    let o1 = iota(4, 1, 2);
    let o2 = vec![1, 3, 5, 7];
    let ci1 = Ugen::IConst(IConst { value: 1 });
    let cf1 = Ugen::FConst(FConst { bits: 3.3f32.to_bits() });
    let mut ugens1: UgenList = Vec::new();
    ugens1.push(Box::new(dup_ugen(&ci1)));
    ugens1.push(Box::new(dup_ugen(&cf1)));
    let exu1 = extend(&ugens1, 5);
    let nums = vec![13, 23, 38, 11];
    let p1 = Ugen::Primitive(Primitive {
        name: "P1".to_string(),
        inputs: mk_ugenlist(&[&ci1, &cf1]),
        outputs: vec![Rate::RateKr, Rate::RateIr],
        ..Primitive::default()
    });
    let p2 = Ugen::Primitive(Primitive {
        name: "P2".to_string(),
        rate: Rate::RateAr,
        ..Primitive::default()
    });

    let mc1 = Ugen::Mce(Mce {
        ugens: vec![Box::new(dup_ugen(&p1)), Box::new(dup_ugen(&p2))],
    });
    let mc2 = mk_mce(mk_ugenlist(&[&p1, &p2]));
    let mc3 = mk_mce(mk_ugenlist(&[&p1, &p2, &mc1]));
    let mg1 = Ugen::Mrg(Mrg {
        left: Box::new(dup_ugen(&mc1)),
        right: Box::new(dup_ugen(&p1)),
    });
    let ex1 = mce_extend(3, &mg1);
    let ic1 = vec![
        vec![iconst(1), iconst(2)],
        vec![iconst(3), iconst(4)],
        vec![iconst(5), iconst(6)],
    ];
    let l2 = transposer(ic1);

    let p3 = Ugen::Primitive(Primitive {
        name: "P3".to_string(),
        rate: Rate::RateKr,
        inputs: mk_ugenlist(&[&mc1, &mc3]),
        outputs: vec![Rate::RateIr],
        ..Primitive::default()
    });
    let mc10 = mce_transform(&p3);
    let mc101 = match mc10 {
        Ugen::Mce(mce) => mce,
        _ => panic!("mce_transform test"),
    };
    let pp3 = &mc101.ugens[2];
    let pp31 = match &**pp3 {
        Ugen::Primitive(prim) => prim,
        _ => panic!("mce_transform test 2"),
    };
    let mg3 = Ugen::Mrg(Mrg {
        left: Box::new(dup_ugen(&mc1)),
        right: Box::new(dup_ugen(&p2)),
    });
    let l22 = mce_channels(&mg3);
    let el10 = &*l22[0];
    let el11 = &*l22[1];
    let _ = match el10 {
        Ugen::Mrg(mrg) => mrg,
        _ => panic!("mce_channel test"),
    };
    let _ = match el11 {
        Ugen::Primitive(primitive) => primitive,
        _ => panic!("mce_channel test 2"),
    };
    let prx1 = proxify(&mc2);
    let l23 = match prx1 {
        Ugen::Mce(mce) => mce,
        _ => panic!("proxify test"),
    };
    let el12 = &*l23.ugens[0];
    let el13 = &*l23.ugens[1];
    let _ = match el12 {
        Ugen::Mce(mce) => mce,
        _ => panic!("proxify test 1"),
    };
    let _ = match el13 {
        Ugen::Primitive(primitive) => primitive,
        _ => panic!("proxify test 2"),
    };
    let b1 = encode_i16(125);
    let ndk1 = Node::NodeK(NodeK {
        name: "ndk1".to_string(),
        def: 5,
        id: 30,
        rate: Rate::RateKr,
    });
    let ndk2 = Node::NodeK(NodeK {
        name: "ndk2".to_string(),
        def: 5,
        id: 31,
        rate: Rate::RateKr,
    });
    let ndc1 = Node::NodeC(NodeC {
        id: 20,
        bits: (320 as f32).to_bits(),
    });
    let ndc2 = Node::NodeC(NodeC {
        id: 21,
        bits: (321 as f32).to_bits(),
    });
    let ndu1 = Node::NodeU(NodeU {
        id: 40,
        name: "ndu1".to_string(),
        rate: Rate::RateDr,
        special: 11,
        ugen_id: 2,
        ..NodeU::default()
    });
    let ndu2 = Node::NodeU(NodeU {
        id: 41,
        name: "ndu2".to_string(),
        ..NodeU::default()
    });
    let gr1 = Graph {
        next_id: 11,
        constants: vec![get_node_c(&ndc1), get_node_c(&ndc2)],
        controls: vec![get_node_k(&ndk1), get_node_k(&ndk2)],
        ugens: vec![get_node_u(&ndu1), get_node_u(&ndu2)],
    };
    let mm1 = mk_map(&gr1);
    let lc1 = mm1.cs;
    let lk1 = mm1.ks;
    let lu1 = mm1.us;
    let (nn10, _) = mk_node_c(&iconst(320), &gr1);
    let nnc10 = get_node_c(&nn10);
    let ck1 = Ugen::Control(Control {
        name: "ndk1".to_string(),
        rate: Rate::RateKr,
        index: 3,
    });
    let (nn11, _) = mk_node_k(&ck1, &gr1);
    let nnk11 = get_node_k(&nn11);

    assert_eq!(o1, o2);
    assert_eq!(exu1.len(), 5);
    assert_eq!(max_num(nums, 21), 38);
    assert_eq!(is_sink(&p2), true);
    assert_eq!(rate_of(&p2), Rate::RateAr);
    assert_eq!(mce_degree(&mc1), 2);
    assert_eq!(ex1.len(), 3);
    assert_eq!(l2.len(), 2);
    assert_eq!(pp31.name, "P3".to_string());
    assert_eq!(decode_i16(b1), 125);
    assert_eq!(lc1[0], 20);
    assert_eq!(lk1[1], 31);
    assert_eq!(lu1[0], 40);
    assert_eq!(find_c_p((320 as f32).to_bits(), &get_node_c(&ndc1)), true);
    assert_eq!(nnc10.id, 20);
    assert_eq!(nnk11.id, 30);
    assert_eq!(compare_ugen(&p1, &p1), true);
    assert_eq!(compare_ugen(&p1, &p2), false);
    assert_eq!(compare_ugen(&mc1, &mc1), true);
    assert_eq!(compare_ugen(&mc1, &p2), false);
    assert_eq!(compare_ugen(&mc1, &mc2), true);
    assert_eq!(compare_ugen(&mc1, &mc3), false);
    assert_eq!(compare_ugen(&mg1, &mg1), true);
    assert_eq!(compare_ugen(&mg1, &p2), false);
    assert_eq!(compare_ugen(&ci1, &ci1), true);
    assert_eq!(compare_ugen(&cf1, &cf1), true);
    assert_eq!(compare_ugen(&ci1, &cf1), false);
}

#[test]
fn extend_cycles_channels() {
    // Extending a two-channel bundle to five channels yields the channel
    // sequence c0, c1, c0, c1, c0; extending to a shorter length keeps a
    // prefix.
    let c0 = Ugen::IConst(IConst { value: 10 });
    let c1 = Ugen::IConst(IConst { value: 20 });
    let chans = mk_ugenlist(&[&c0, &c1]);
    let five = extend(&chans, 5);
    assert_eq!(five.len(), 5);
    let expect = [&c0, &c1, &c0, &c1, &c0];
    for (i, e) in expect.iter().enumerate() {
        assert!(compare_ugen(&five[i], e), "channel {}", i);
    }
    let one = extend(&chans, 1);
    assert_eq!(one.len(), 1);
    assert!(compare_ugen(&one[0], &c0));
}

#[test]
fn mce_expand_is_idempotent() {
    let mc = mk_mce(mk_ugenlist(&[
        &Ugen::IConst(IConst { value: 1 }),
        &Ugen::IConst(IConst { value: 2 }),
        &Ugen::IConst(IConst { value: 3 }),
    ]));
    let p = Ugen::Primitive(Primitive {
        name: "Op".to_string(),
        inputs: mk_ugenlist(&[&mc, &Ugen::IConst(IConst { value: 9 })]),
        outputs: vec![Rate::RateAr],
        ..Primitive::default()
    });
    let once = mce_expand(&p);
    let twice = mce_expand(&once);
    assert!(compare_ugen(&once, &twice));
    match &once {
        Ugen::Mce(mce) => assert_eq!(mce.ugens.len(), 3),
        _ => panic!("expand"),
    }
}

#[test]
fn mce_transform_takes_maximum_degree() {
    // A primitive with bundle inputs of degree 2 and 3 transforms into
    // exactly 3 channels, each a primitive whose inputs pair the
    // extensions of the originals.
    let a0 = Ugen::IConst(IConst { value: 1 });
    let a1 = Ugen::IConst(IConst { value: 2 });
    let b0 = Ugen::IConst(IConst { value: 7 });
    let b1 = Ugen::IConst(IConst { value: 8 });
    let b2 = Ugen::IConst(IConst { value: 9 });
    let mc_a = mk_mce(mk_ugenlist(&[&a0, &a1]));
    let mc_b = mk_mce(mk_ugenlist(&[&b0, &b1, &b2]));
    let p = Ugen::Primitive(Primitive {
        name: "Op".to_string(),
        inputs: mk_ugenlist(&[&mc_a, &mc_b]),
        outputs: vec![Rate::RateAr],
        ..Primitive::default()
    });
    let t = mce_transform(&p);
    let channels = match t {
        Ugen::Mce(mce) => mce.ugens,
        _ => panic!("transform"),
    };
    assert_eq!(channels.len(), 3);
    let pairs = [[&a0, &b0], [&a1, &b1], [&a0, &b2]];
    for (r, pair) in pairs.iter().enumerate() {
        match &*channels[r] {
            Ugen::Primitive(row) => {
                assert_eq!(row.name, "Op".to_string());
                assert_eq!(row.inputs.len(), 2);
                assert!(compare_ugen(&row.inputs[0], pair[0]), "row {}", r);
                assert!(compare_ugen(&row.inputs[1], pair[1]), "row {}", r);
            }
            _ => panic!("row"),
        }
    }
}

#[test]
fn compare_ugen_is_order_sensitive() {
    // Swapping two equal-typed but distinct inputs changes the pairing
    // and the comparison reports the trees unequal.
    let x = Ugen::IConst(IConst { value: 1 });
    let y = Ugen::IConst(IConst { value: 2 });
    let p_xy = Ugen::Primitive(Primitive {
        name: "Op".to_string(),
        inputs: mk_ugenlist(&[&x, &y]),
        outputs: vec![Rate::RateKr],
        ..Primitive::default()
    });
    let p_yx = Ugen::Primitive(Primitive {
        name: "Op".to_string(),
        inputs: mk_ugenlist(&[&y, &x]),
        outputs: vec![Rate::RateKr],
        ..Primitive::default()
    });
    assert_eq!(compare_ugen(&p_xy, &p_xy), true);
    assert_eq!(compare_ugen(&p_xy, &p_yx), false);
}

#[test]
fn mce_channel_picks_one_channel() {
    let c0 = Ugen::IConst(IConst { value: 1 });
    let c1 = Ugen::IConst(IConst { value: 2 });
    let mc = mk_mce(mk_ugenlist(&[&c0, &c1]));
    assert!(compare_ugen(&mce_channel(0, &mc), &c0));
    assert!(compare_ugen(&mce_channel(1, &mc), &c1));
}

#[test]
fn mce_channels_keeps_attachment_on_channel_zero() {
    // Splitting a merge keeps its right attachment on channel zero only.
    let c0 = Ugen::IConst(IConst { value: 1 });
    let c1 = Ugen::IConst(IConst { value: 2 });
    let side = Ugen::IConst(IConst { value: 9 });
    let mg = Ugen::Mrg(Mrg {
        left: Box::new(mk_mce(mk_ugenlist(&[&c0, &c1]))),
        right: Box::new(dup_ugen(&side)),
    });
    let chans = mce_channels(&mg);
    assert_eq!(chans.len(), 2);
    match &*chans[0] {
        Ugen::Mrg(m) => {
            assert!(compare_ugen(&m.left, &c0));
            assert!(compare_ugen(&m.right, &side));
        }
        _ => panic!("channel zero"),
    }
    assert!(compare_ugen(&chans[1], &c1));
}

#[test]
fn proxify_splits_multi_output_primitives() {
    let p = Ugen::Primitive(Primitive {
        name: "Pan".to_string(),
        inputs: mk_ugenlist(&[&Ugen::IConst(IConst { value: 1 })]),
        outputs: vec![Rate::RateAr, Rate::RateAr],
        ..Primitive::default()
    });
    let r = proxify(&p);
    match r {
        Ugen::Mce(mce) => {
            assert_eq!(mce.ugens.len(), 2);
            for (i, ch) in mce.ugens.iter().enumerate() {
                match &**ch {
                    Ugen::Proxy(px) => {
                        assert_eq!(px.index, i as i32);
                        assert_eq!(px.primitive.name, "Pan".to_string());
                    }
                    _ => panic!("proxy"),
                }
            }
        }
        _ => panic!("proxify"),
    }
    // A single-output primitive is left alone.
    let single = Ugen::Primitive(Primitive {
        name: "Osc".to_string(),
        inputs: mk_ugenlist(&[&Ugen::IConst(IConst { value: 1 })]),
        outputs: vec![Rate::RateAr],
        ..Primitive::default()
    });
    assert!(compare_ugen(&proxify(&single), &single));
}

#[test]
fn mce_extend_replicates_leaves_and_keeps_merges_whole() {
    let leaf = Ugen::IConst(IConst { value: 7 });
    let ex = mce_extend(4, &leaf);
    assert_eq!(ex.len(), 4);
    for e in ex.iter() {
        assert!(compare_ugen(e, &leaf));
    }
    let c0 = Ugen::IConst(IConst { value: 1 });
    let c1 = Ugen::IConst(IConst { value: 2 });
    let side = Ugen::IConst(IConst { value: 9 });
    let mg = Ugen::Mrg(Mrg {
        left: Box::new(mk_mce(mk_ugenlist(&[&c0, &c1]))),
        right: Box::new(dup_ugen(&side)),
    });
    let ex2 = mce_extend(3, &mg);
    assert_eq!(ex2.len(), 3);
    // channel zero is a fresh merge of the extension's first channel with
    // the right attachment preserved
    let ch0 = Ugen::Mrg(Mrg {
        left: Box::new(dup_ugen(&c0)),
        right: Box::new(dup_ugen(&side)),
    });
    assert!(compare_ugen(&ex2[0], &ch0));
    assert!(compare_ugen(&ex2[1], &c1));
    assert!(compare_ugen(&ex2[2], &c0));
}

#[test]
fn merge_compiles_right_side_first() {
    // The right attachment of a merge registers its nodes before the
    // merge's value: the right side's constant gets the earlier id and so
    // sits later in the most-recent-first table.
    let left = Ugen::Primitive(Primitive {
        name: "L".to_string(),
        inputs: mk_ugenlist(&[&Ugen::IConst(IConst { value: 1 })]),
        outputs: vec![Rate::RateAr],
        ..Primitive::default()
    });
    let right = Ugen::Primitive(Primitive {
        name: "R".to_string(),
        inputs: mk_ugenlist(&[&Ugen::IConst(IConst { value: 2 })]),
        outputs: vec![Rate::RateAr],
        ..Primitive::default()
    });
    let mg = Ugen::Mrg(Mrg {
        left: Box::new(left),
        right: Box::new(right),
    });
    let g = rsc3::graph::synth(&mg);
    assert_eq!(g.ugens.len(), 2);
    // creation order after the final reversal: right first
    assert_eq!(g.ugens[0].name, "R".to_string());
    assert_eq!(g.ugens[1].name, "L".to_string());
}
