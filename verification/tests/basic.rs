use rsc3::graph::{synth, Graph};
use rsc3::graphdef::synthdef;
use rsc3::numbits::{f32_bits_eq, f32_bits_of_i32};
use rsc3::osc::{
    decode_i16, decode_i32, encode_f32, encode_i16, encode_i32, encode_i8, encode_message,
    encode_str, sc_start, sc_stop, str_pstr, Datum, Message,
};
use rsc3::sc3::{compare_ugen, dup_ugen, Control, FConst, IConst, Mce, Rate, Ugen};
use rsc3::ugens::{mk_filter, mk_oscillator, out, sc_play};

#[test]
fn test0() {
    assert_eq!(true, true);
}

#[test]
fn test2() {
    assert_eq!(true, true);
}

#[test]
fn encode_i8_takes_low_byte() {
    assert_eq!(encode_i8(0x41), vec![0x41]);
    assert_eq!(encode_i8(0x1234), vec![0x34]);
    assert_eq!(encode_i8(-1), vec![0xff]);
}

#[test]
fn encode_i16_is_big_endian() {
    assert_eq!(encode_i16(125), vec![0, 125]);
    assert_eq!(encode_i16(0x1234), vec![0x12, 0x34]);
    assert_eq!(encode_i16(-1), vec![0xff, 0xff]);
}

#[test]
fn encode_i16_truncates_to_low_16_bits() {
    assert_eq!(encode_i16(0x12345), vec![0x23, 0x45]);
    assert_eq!(decode_i16(encode_i16(0x12345)), 0x2345);
}

#[test]
fn i16_round_trip() {
    assert_eq!(decode_i16(encode_i16(125)), 125);
    assert_eq!(decode_i16(encode_i16(0)), 0);
    assert_eq!(decode_i16(encode_i16(32767)), 32767);
}

#[test]
fn encode_i32_is_big_endian() {
    assert_eq!(encode_i32(1), vec![0, 0, 0, 1]);
    assert_eq!(encode_i32(0x01020304), vec![1, 2, 3, 4]);
    assert_eq!(encode_i32(-1), vec![0xff, 0xff, 0xff, 0xff]);
}

#[test]
fn i32_round_trip() {
    assert_eq!(decode_i32(encode_i32(0x01020304)), 0x01020304);
    assert_eq!(decode_i32(encode_i32(-1)), -1);
    assert_eq!(decode_i32(encode_i32(i32::MIN)), i32::MIN);
    assert_eq!(decode_i32(vec![0, 0, 0, 125]), 125);
}

#[test]
fn encode_f32_is_bit_pattern_big_endian() {
    assert_eq!(encode_f32(440.0f32.to_bits()), 440.0f32.to_be_bytes().to_vec());
    assert_eq!(encode_f32(0.0f32.to_bits()), vec![0, 0, 0, 0]);
}

#[test]
fn encode_str_is_raw_bytes() {
    assert_eq!(encode_str(&"SCgf".to_string()), b"SCgf".to_vec());
    assert_eq!(encode_str(&"".to_string()), Vec::<u8>::new());
}

#[test]
fn str_pstr_prepends_length() {
    assert_eq!(str_pstr(&"abc".to_string()), vec![3, b'a', b'b', b'c']);
    assert_eq!(str_pstr(&"".to_string()), vec![0]);
}

#[test]
fn f32_bits_of_i32_matches_float_cast() {
    let cases: [i32; 14] = [
        0,
        1,
        -1,
        2,
        125,
        320,
        -320,
        8388607,
        16777215,
        16777217,
        16777219,
        2147483647,
        -2147483648,
        33554430,
    ];
    for &i in cases.iter() {
        assert_eq!(f32_bits_of_i32(i), (i as f32).to_bits(), "value {}", i);
    }
}

#[test]
fn f32_bits_eq_follows_ieee_rules() {
    let nan = f32::NAN.to_bits();
    assert!(!f32_bits_eq(nan, nan));
    assert!(f32_bits_eq(0.0f32.to_bits(), (-0.0f32).to_bits()));
    assert!(f32_bits_eq(1.5f32.to_bits(), 1.5f32.to_bits()));
    assert!(!f32_bits_eq(1.5f32.to_bits(), 2.5f32.to_bits()));
}

#[test]
fn nan_constants_never_compare_equal() {
    let nan = Ugen::FConst(FConst { bits: f32::NAN.to_bits() });
    assert_eq!(compare_ugen(&nan, &nan), false);
    let zero = Ugen::FConst(FConst { bits: 0.0f32.to_bits() });
    let negzero = Ugen::FConst(FConst { bits: (-0.0f32).to_bits() });
    assert_eq!(compare_ugen(&zero, &negzero), true);
}

#[test]
fn message_with_every_argument_kind_is_wire_exact() {
    let msg = Message {
        name: "/x".to_string(),
        l_datum: vec![
            Datum::Int(1),
            Datum::Float(0.5f32.to_bits()),
            Datum::Str("ab".to_string()),
            Datum::Blob(vec![1, 2, 3]),
        ],
    };
    let bytes = encode_message(&msg);
    let mut expected: Vec<u8> = Vec::new();
    expected.extend(b"/x\x00\x00".to_vec()); // padded address
    expected.extend(b",ifsb\x00\x00\x00".to_vec()); // padded descriptor
    expected.extend(vec![0, 0, 0, 1]); // the int
    expected.extend(0.5f32.to_be_bytes().to_vec()); // the float pattern
    expected.extend(b"ab\x00\x00".to_vec()); // the padded string
    expected.extend(vec![0, 0, 0, 3, 1, 2, 3, 0]); // the padded blob
    assert_eq!(bytes, expected);
}

#[test]
fn padding_adds_a_full_block_on_a_boundary() {
    // A four-byte address gains four more zero bytes: the wire rule pads
    // with 4 - (length modulo 4) bytes, never zero.
    let msg = Message { name: "/abc".to_string(), l_datum: vec![] };
    let bytes = encode_message(&msg);
    let mut expected: Vec<u8> = Vec::new();
    expected.extend(b"/abc\x00\x00\x00\x00".to_vec());
    expected.extend(b",\x00\x00\x00".to_vec());
    assert_eq!(bytes, expected);
}

#[test]
fn sc_start_messages_are_wire_exact() {
    let msgs = sc_start();
    assert_eq!(msgs.len(), 2);
    assert_eq!(
        msgs[0],
        b"/notify\x00,i\x00\x00\x00\x00\x00\x01".to_vec()
    );
    let mut expected = b"/g_new\x00\x00,iii\x00\x00\x00\x00".to_vec();
    expected.extend(vec![0, 0, 0, 1, 0, 0, 0, 1, 0, 0, 0, 0]);
    assert_eq!(msgs[1], expected);
}

#[test]
fn sc_stop_message_is_wire_exact() {
    let msgs = sc_stop();
    assert_eq!(msgs.len(), 1);
    assert_eq!(msgs[0], b"/g_deepFree\x00,i\x00\x00\x00\x00\x00\x01".to_vec());
}

fn fconst(v: f32) -> Box<Ugen> {
    Box::new(Ugen::FConst(FConst { bits: v.to_bits() }))
}

#[test]
fn synthdef_layout_is_byte_exact() {
    // An audio-rate primitive with two float-constant inputs and one
    // control input.
    let control = Ugen::Control(Control {
        name: "amp".to_string(),
        index: 0,
        rate: Rate::RateKr,
    });
    let prim = mk_oscillator(
        Rate::RateAr,
        "Osc",
        vec![fconst(440.0), fconst(0.5), Box::new(dup_ugen(&control))],
        1,
    );
    let bytes = synthdef("t", &prim);
    let mut expected: Vec<u8> = Vec::new();
    expected.extend(b"SCgf".to_vec()); // magic
    expected.extend(vec![0, 0, 0, 0]); // version 0
    expected.extend(vec![0, 1]); // one definition
    expected.extend(vec![1, b't']); // Pascal name
    expected.extend(vec![0, 2]); // two constants, most recent first
    expected.extend(0.5f32.to_be_bytes().to_vec());
    expected.extend(440.0f32.to_be_bytes().to_vec());
    expected.extend(vec![0, 1]); // one control default
    expected.extend(0.0f32.to_be_bytes().to_vec());
    expected.extend(vec![0, 1]); // one control name entry
    expected.extend(vec![3, b'a', b'm', b'p']);
    expected.extend(vec![0, 0]); // position of "amp" in the id list
    expected.extend(vec![0, 2]); // implicit control node plus the primitive
    // the implicit control-vector source
    expected.extend(vec![7]);
    expected.extend(b"Control".to_vec());
    expected.extend(vec![1]); // control rate
    expected.extend(vec![0, 0]); // no inputs
    expected.extend(vec![0, 1]); // one output
    expected.extend(vec![0, 0]); // special 0
    expected.extend(vec![1]); // output rate
    // the primitive
    expected.extend(vec![3]);
    expected.extend(b"Osc".to_vec());
    expected.extend(vec![2]); // audio rate
    expected.extend(vec![0, 3]); // three inputs
    expected.extend(vec![0, 1]); // one output
    expected.extend(vec![0, 0]); // special 0
    expected.extend(vec![0xff, 0xff, 0, 1]); // constant 440.0
    expected.extend(vec![0xff, 0xff, 0, 0]); // constant 0.5
    expected.extend(vec![0, 0, 0, 0]); // the control, port 0
    expected.extend(vec![2]); // output rate: audio
    assert_eq!(bytes, expected);
}

#[test]
fn constant_dedup_keeps_one_entry() {
    // Two structurally identical float constants compile to one NodeC.
    let prim = mk_oscillator(Rate::RateAr, "Osc", vec![fconst(440.0), fconst(440.0)], 1);
    let g: Graph = synth(&prim);
    assert_eq!(g.constants.len(), 1);
    // An integer constant equal after promotion reuses the same entry.
    let prim2 = mk_oscillator(
        Rate::RateAr,
        "Osc",
        vec![fconst(320.0), Box::new(Ugen::IConst(IConst { value: 320 }))],
        1,
    );
    let g2: Graph = synth(&prim2);
    assert_eq!(g2.constants.len(), 1);
}

#[test]
fn control_dedup_keeps_one_entry() {
    let c = |name: &str| -> Box<Ugen> {
        Box::new(Ugen::Control(Control {
            name: name.to_string(),
            index: 0,
            rate: Rate::RateKr,
        }))
    };
    let prim = mk_oscillator(Rate::RateAr, "Osc", vec![c("amp"), c("amp")], 1);
    let g: Graph = synth(&prim);
    assert_eq!(g.controls.len(), 1);
}

#[test]
fn primitive_dedup_keeps_one_entry() {
    // Two structurally identical primitives compile to one NodeU (plus the
    // consumer that reads them twice).
    let mk = || -> Box<Ugen> {
        Box::new(mk_oscillator(Rate::RateAr, "Osc", vec![fconst(440.0)], 1))
    };
    let top = mk_oscillator(Rate::RateAr, "Sum", vec![mk(), mk()], 1);
    let g: Graph = synth(&top);
    assert_eq!(g.ugens.len(), 2); // one "Osc", one "Sum"
    assert_eq!(g.constants.len(), 1);
}

#[test]
fn mce_root_is_rewritten_before_compiling() {
    // A tree whose root is a two-channel bundle is folded into a merge
    // chain by the root rewrite and compiles without meeting an
    // unexpanded-root shape.
    let ch0 = mk_oscillator(Rate::RateAr, "Osc", vec![fconst(440.0)], 1);
    let ch1 = mk_oscillator(Rate::RateAr, "Osc", vec![fconst(220.0)], 1);
    let root = Ugen::Mce(Mce { ugens: vec![Box::new(ch0), Box::new(ch1)] });
    let g: Graph = synth(&root);
    assert_eq!(g.ugens.len(), 2);
    assert_eq!(g.constants.len(), 2);
}

#[test]
fn out_wraps_signal_channels() {
    let sig = mk_oscillator(Rate::RateAr, "Osc", vec![fconst(440.0)], 1);
    let u = out(0, &sig);
    match u {
        Ugen::Primitive(p) => {
            assert_eq!(p.name, "Out".to_string());
            assert_eq!(p.inputs.len(), 2);
            assert_eq!(p.outputs.len(), 0);
        }
        _ => panic!("out"),
    }
}

#[test]
fn synthdef_without_controls_has_no_implicit_node() {
    let prim = mk_oscillator(Rate::RateAr, "Osc", vec![fconst(440.0), fconst(0.5)], 1);
    let g: Graph = synth(&prim);
    assert_eq!(g.ugens.len(), 1);
    assert_eq!(g.controls.len(), 0);
    let bytes = synthdef("t", &prim);
    // after magic, version, count, name and the two constants: zero
    // controls twice, then one ugen
    let tail_start = 4 + 4 + 2 + 2 + 2 + 8;
    assert_eq!(&bytes[tail_start..tail_start + 2], &[0, 0]);
    assert_eq!(&bytes[tail_start + 2..tail_start + 4], &[0, 0]);
    assert_eq!(&bytes[tail_start + 4..tail_start + 6], &[0, 1]);
}

#[test]
fn filter_takes_maximum_input_rate() {
    let audio = mk_oscillator(Rate::RateAr, "Osc", vec![fconst(440.0)], 1);
    let f = mk_filter("LPF", vec![Box::new(audio), fconst(100.0)], 1);
    match f {
        Ugen::Primitive(p) => {
            assert_eq!(p.rate, Rate::RateAr);
            assert_eq!(p.outputs, vec![Rate::RateAr]);
        }
        _ => panic!("filter"),
    }
    let slow = mk_filter("LPF", vec![fconst(1.0), fconst(2.0)], 1);
    match slow {
        Ugen::Primitive(p) => assert_eq!(p.rate, Rate::RateKr),
        _ => panic!("filter"),
    }
}

#[test]
fn sc_play_sends_definition_then_start() {
    let sig = mk_oscillator(Rate::RateAr, "Osc", vec![fconst(440.0)], 1);
    let msgs = sc_play(&sig);
    assert_eq!(msgs.len(), 2);
    assert!(msgs[0].starts_with(b"/d_recv\x00,b\x00\x00"));
    let synd = synthdef("anonymous", &out(0, &sig));
    let n = synd.len() as u32;
    let mut prefix = b"/d_recv\x00,b\x00\x00".to_vec();
    prefix.extend(n.to_be_bytes().to_vec());
    prefix.extend(synd);
    assert!(msgs[0].starts_with(&prefix));
    assert!(msgs[1].starts_with(b"/s_new\x00\x00,siii\x00\x00\x00"));
}
