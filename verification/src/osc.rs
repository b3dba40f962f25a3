//! Binary primitives and the typed-message wire codec.
//!
//! Integers and floats are encoded big-endian at fixed width; strings are
//! raw bytes, optionally with a one-byte length prefix; messages are an
//! address, a type-descriptor string and the arguments, each padded to a
//! four-byte boundary. Float arguments are carried as IEEE-754 bit patterns.

use vstd::prelude::*;

verus! {

/// The single low-order byte of `num`, big-endian width one.
pub open spec fn spec_encode_i8(num: i32) -> Seq<u8> {
    seq![(num & 0xff) as u8]
}

/// The two low-order bytes of `num`, big-endian.
pub open spec fn spec_encode_i16(num: i32) -> Seq<u8> {
    seq![((num >> 8) & 0xff) as u8, (num & 0xff) as u8]
}

/// The four bytes of `num`, big-endian.
pub open spec fn spec_encode_i32(num: i32) -> Seq<u8> {
    seq![
        ((num >> 24) & 0xff) as u8,
        ((num >> 16) & 0xff) as u8,
        ((num >> 8) & 0xff) as u8,
        (num & 0xff) as u8,
    ]
}

/// The four bytes of a 32-bit pattern, big-endian; encoding a float is
/// encoding its IEEE-754 bit pattern.
pub open spec fn spec_encode_u32(bits: u32) -> Seq<u8> {
    seq![
        ((bits >> 24) & 0xff) as u8,
        ((bits >> 16) & 0xff) as u8,
        ((bits >> 8) & 0xff) as u8,
        (bits & 0xff) as u8,
    ]
}

/// Encodes the low byte of an integer, width one.
pub fn encode_i8(num: i32) -> (r: Vec<u8>)
    ensures
        r@ == spec_encode_i8(num),
{
    let n: u8 = (num & 0xff) as u8;
    let mut out: Vec<u8> = Vec::new();
    out.push(n);
    proof {
        assert(out@ =~= spec_encode_i8(num));
    }
    out
}

/// Encodes the two low bytes of an integer, big-endian. Input outside the
/// 16-bit range is truncated to its low 16 bits.
pub fn encode_i16(num: i32) -> (r: Vec<u8>)
    ensures
        r@ == spec_encode_i16(num),
{
    let n1: u8 = (num & 0xff) as u8;
    let n2: u8 = ((num >> 8) & 0xff) as u8;
    let mut out: Vec<u8> = Vec::new();
    out.push(n2);
    out.push(n1);
    proof {
        assert(out@ =~= spec_encode_i16(num));
    }
    out
}

/// Encodes an integer on four bytes, big-endian.
pub fn encode_i32(num: i32) -> (r: Vec<u8>)
    ensures
        r@ == spec_encode_i32(num),
{
    let n1: u8 = (num & 0xff) as u8;
    let n2: u8 = ((num >> 8) & 0xff) as u8;
    let n3: u8 = ((num >> 16) & 0xff) as u8;
    let n4: u8 = ((num >> 24) & 0xff) as u8;
    let mut out: Vec<u8> = Vec::new();
    out.push(n4);
    out.push(n3);
    out.push(n2);
    out.push(n1);
    proof {
        assert(out@ =~= spec_encode_i32(num));
    }
    out
}

/// Encodes a float, given as its IEEE-754 bit pattern, on four bytes,
/// big-endian.
pub fn encode_f32(bits: u32) -> (r: Vec<u8>)
    ensures
        r@ == spec_encode_u32(bits),
{
    let n1: u8 = (bits & 0xff) as u8;
    let n2: u8 = ((bits >> 8) & 0xff) as u8;
    let n3: u8 = ((bits >> 16) & 0xff) as u8;
    let n4: u8 = ((bits >> 24) & 0xff) as u8;
    let mut out: Vec<u8> = Vec::new();
    out.push(n4);
    out.push(n3);
    out.push(n2);
    out.push(n1);
    proof {
        assert(out@ =~= spec_encode_u32(bits));
    }
    out
}

/// The integer read back from a big-endian two-byte buffer: always in
/// `0 .. 65536`.
pub open spec fn spec_decode_i16(b: Seq<u8>) -> i32 {
    (((b[0] as u16) << 8) | (b[1] as u16)) as i32
}

/// Decodes a big-endian two-byte buffer: the exact inverse of `encode_i16`
/// on `0..=32767`; in general the low sixteen bits read back unsigned.
pub fn decode_i16(buf: Vec<u8>) -> (r: i32)
    requires
        buf@.len() >= 2,
    ensures
        r == spec_decode_i16(buf@),
{
    let b0: u8 = buf[0];
    let b1: u8 = buf[1];
    let n1: u16 = (b0 as u16) << 8u16;
    let num: u16 = b1 as u16 | n1;
    proof {
        assert(((b1 as u16) | ((b0 as u16) << 8u16)) == (((b0 as u16) << 8u16) | (
        b1 as u16))) by (bit_vector);
    }
    num as i32
}

/// The integer read back from a big-endian four-byte buffer.
pub open spec fn spec_decode_i32(b: Seq<u8>) -> i32 {
    (((b[0] as u32) << 24) | ((b[1] as u32) << 16) | ((b[2] as u32) << 8) | (
    b[3] as u32)) as i32
}

/// Decodes a big-endian four-byte buffer; the exact inverse of
/// `encode_i32`.
pub fn decode_i32(buf: Vec<u8>) -> (r: i32)
    requires
        buf@.len() >= 4,
    ensures
        r == spec_decode_i32(buf@),
{
    let b0: u8 = buf[0];
    let b1: u8 = buf[1];
    let b2: u8 = buf[2];
    let b3: u8 = buf[3];
    let n1: u32 = (b0 as u32) << 24u32;
    let n2: u32 = (b1 as u32) << 16u32;
    let n3: u32 = (b2 as u32) << 8u32;
    let num: u32 = b3 as u32 | n3 | n2 | n1;
    proof {
        assert((((b3 as u32) | ((b2 as u32) << 8u32)) | ((b1 as u32) << 16u32)) | ((
        b0 as u32) << 24u32) == (((b0 as u32) << 24u32) | ((b1 as u32) << 16u32) | ((
        b2 as u32) << 8u32) | (b3 as u32))) by (bit_vector);
    }
    num as i32
}

/// Encoding then decoding a 32-bit integer restores it exactly.
pub proof fn lemma_i32_round_trip(num: i32)
    ensures
        spec_decode_i32(spec_encode_i32(num)) == num,
{
    assert(((((((num >> 24) & 0xff) as u8 as u32) << 24) | ((((num >> 16) & 0xff) as u8
        as u32) << 16) | ((((num >> 8) & 0xff) as u8 as u32) << 8) | (((num & 0xff) as u8)
        as u32)) as i32) == num) by (bit_vector);
}

/// Encoding then decoding a 16-bit quantity restores it: the round trip
/// returns the low 16 bits of the input as an unsigned value.
pub proof fn lemma_i16_round_trip(num: i32)
    ensures
        spec_decode_i16(spec_encode_i16(num)) == num & 0xffff,
        0 <= num <= 0x7fff ==> spec_decode_i16(spec_encode_i16(num)) == num,
{
    assert((((((num >> 8) & 0xff) as u8 as u16) << 8) | ((num & 0xff) as u8 as u16)) as i32
        == num & 0xffff) by (bit_vector);
    assert(0 <= num <= 0x7fff ==> num & 0xffff == num) by (bit_vector);
}

/// The raw bytes of a string, no terminator.
pub open spec fn spec_encode_str(s: Seq<char>) -> Seq<u8> {
    vstd::utf8::encode_utf8(s)
}

/// Encodes a string as its raw bytes, no terminator.
pub fn encode_str(str1: &String) -> (r: Vec<u8>)
    ensures
        r@ == spec_encode_str(str1@),
{
    let bb = str1.as_str().as_bytes_vec();
    bb
}

/// A length-prefixed string: one length byte, then the raw bytes. Defined
/// only for strings of at most 255 bytes.
pub open spec fn spec_pstr(s: Seq<char>) -> Seq<u8> {
    seq![spec_encode_str(s).len() as u8] + spec_encode_str(s)
}

/// Encodes a string with a one-byte length prefix. Strings of 256 bytes or
/// more do not fit the format and are excluded.
pub fn str_pstr(str1: &String) -> (r: Vec<u8>)
    requires
        spec_encode_str(str1@).len() <= 255,
    ensures
        r@ == spec_pstr(str1@),
{
    let bb = str1.as_str().as_bytes_vec();
    let mut out: Vec<u8> = Vec::new();
    out.push(bb.len() as u8);
    let mut i: usize = 0;
    while i < bb.len()
        invariant
            i <= bb.len(),
            bb@ == spec_encode_str(str1@),
            bb@.len() <= 255,
            out@ =~= seq![bb@.len() as u8] + bb@.subrange(0, i as int),
        decreases bb.len() - i,
    {
        out.push(bb[i]);
        i = i + 1;
    }
    proof {
        assert(out@ =~= spec_pstr(str1@));
    }
    out
}

/// How many zero bytes pad a buffer of length `n` to the next four-byte
/// boundary: always between one and four, so a buffer already on a boundary
/// still gains a full block. The reference encoder behaves this way and the
/// wire format follows it.
pub open spec fn spec_align(n: int) -> int {
    4 - n % 4
}

/// A buffer followed by its zero padding.
pub open spec fn spec_extend_zero(b: Seq<u8>) -> Seq<u8> {
    b + Seq::new(spec_align(b.len() as int) as nat, |i: int| 0u8)
}

/// Appends the zero padding that takes `bts` to the next four-byte
/// boundary.
fn extend_zero(bts: &Vec<u8>) -> (r: Vec<u8>)
    ensures
        r@ == spec_extend_zero(bts@),
        r@.len() == bts@.len() + spec_align(bts@.len() as int),
{
    let mut out: Vec<u8> = Vec::new();
    let mut i: usize = 0;
    while i < bts.len()
        invariant
            i <= bts.len(),
            out@ =~= bts@.subrange(0, i as int),
        decreases bts.len() - i,
    {
        out.push(bts[i]);
        i = i + 1;
    }
    let n: usize = 4 - bts.len() % 4;
    let mut k: usize = 0;
    while k < n
        invariant
            k <= n,
            n == 4 - bts@.len() % 4,
            out@ =~= bts@ + Seq::new(k as nat, |j: int| 0u8),
        decreases n - k,
    {
        out.push(0u8);
        k = k + 1;
    }
    proof {
        assert(out@ =~= spec_extend_zero(bts@));
    }
    out
}

/// A string padded to a four-byte boundary with zero bytes.
pub open spec fn spec_encode_string(s: Seq<char>) -> Seq<u8> {
    spec_extend_zero(spec_encode_str(s))
}

/// Encodes a string as raw bytes padded to a four-byte boundary.
fn encode_string(str1: &String) -> (r: Vec<u8>)
    ensures
        r@ == spec_encode_string(str1@),
{
    let e = encode_str(str1);
    extend_zero(&e)
}

/// A blob: a four-byte big-endian length prefix, the raw bytes, and the
/// same zero padding rule. The length must fit the prefix.
pub open spec fn spec_encode_blob(b: Seq<u8>) -> Seq<u8> {
    spec_encode_i32(b.len() as i32) + spec_extend_zero(b)
}

/// Encodes a blob with a length prefix and trailing zero padding.
fn encode_blob(bts: &Vec<u8>) -> (r: Vec<u8>)
    requires
        bts@.len() <= i32::MAX,
    ensures
        r@ == spec_encode_blob(bts@),
{
    let b1 = encode_i32(bts.len() as i32);
    let b2 = extend_zero(bts);
    let mut out = b1;
    let mut i: usize = 0;
    while i < b2.len()
        invariant
            i <= b2.len(),
            out@ =~= spec_encode_i32(bts@.len() as i32) + b2@.subrange(0, i as int),
            b2@ == spec_extend_zero(bts@),
        decreases b2.len() - i,
    {
        out.push(b2[i]);
        i = i + 1;
    }
    proof {
        assert(out@ =~= spec_encode_blob(bts@));
    }
    out
}

/// One typed message argument. A float is carried as its IEEE-754 bit
/// pattern.
pub enum Datum {
    Int(i32),
    Float(u32),
    Str(String),
    Blob(Vec<u8>),
}

/// The view of an argument.
pub enum DatumV {
    Int(int),
    Float(u32),
    Str(Seq<char>),
    Blob(Seq<u8>),
}

impl View for Datum {
    type V = DatumV;

    open spec fn view(&self) -> DatumV {
        match self {
            Datum::Int(i) => DatumV::Int(*i as int),
            Datum::Float(b) => DatumV::Float(*b),
            Datum::Str(s) => DatumV::Str(s@),
            Datum::Blob(b) => DatumV::Blob(b@),
        }
    }
}

/// The type-tag character of an argument.
pub open spec fn spec_tag(d: DatumV) -> u8 {
    match d {
        DatumV::Int(_) => 105u8,  // 'i'
        DatumV::Float(_) => 102u8,  // 'f'
        DatumV::Str(_) => 115u8,  // 's'
        DatumV::Blob(_) => 98u8,  // 'b'
    }
}

/// Returns the type-tag byte of an argument.
pub fn tag(datum: &Datum) -> (r: u8)
    ensures
        r == spec_tag(datum@),
{
    match datum {
        Datum::Int(_) => 105u8,
        Datum::Float(_) => 102u8,
        Datum::Str(_) => 115u8,
        Datum::Blob(_) => 98u8,
    }
}

/// The views of the first `n` arguments of a list.
pub open spec fn view_data_prefix(l: Vec<Datum>, n: int) -> Seq<DatumV>
    decreases n,
{
    if n <= 0 || n > l.len() {
        Seq::empty()
    } else {
        view_data_prefix(l, n - 1).push(l[n - 1]@)
    }
}

/// The views of a list of arguments.
pub open spec fn view_data(l: Vec<Datum>) -> Seq<DatumV> {
    view_data_prefix(l, l.len() as int)
}

pub proof fn lemma_view_data_prefix(l: Vec<Datum>, n: int)
    requires
        0 <= n <= l.len(),
    ensures
        view_data_prefix(l, n).len() == n,
        forall|i: int| 0 <= i < n ==> view_data_prefix(l, n)[i] == l[i]@,
    decreases n,
{
    if n > 0 {
        lemma_view_data_prefix(l, n - 1);
    }
}

/// The descriptor string of an argument list: a comma, then each
/// argument's tag in order.
pub open spec fn spec_descriptor(l: Seq<DatumV>) -> Seq<u8>
    decreases l.len(),
{
    if l.len() == 0 {
        seq![44u8]  // ','
    } else {
        spec_descriptor(l.drop_last()).push(spec_tag(l.last()))
    }
}

/// Builds the descriptor bytes of an argument list.
pub fn descriptor(l_datum: &Vec<Datum>) -> (r: Vec<u8>)
    ensures
        r@ == spec_descriptor(view_data(*l_datum)),
{
    proof {
        lemma_view_data_prefix(*l_datum, l_datum.len() as int);
    }
    let mut out: Vec<u8> = Vec::new();
    out.push(44u8);
    let mut i: usize = 0;
    while i < l_datum.len()
        invariant
            i <= l_datum.len(),
            view_data(*l_datum).len() == l_datum.len(),
            forall|j: int| 0 <= j < l_datum.len() ==> view_data(*l_datum)[j] == l_datum[j]@,
            out@ =~= spec_descriptor(view_data(*l_datum).subrange(0, i as int)),
        decreases l_datum.len() - i,
    {
        let t = tag(&l_datum[i]);
        out.push(t);
        proof {
            let vs = view_data(*l_datum);
            assert(vs.subrange(0, i + 1).drop_last() =~= vs.subrange(0, i as int));
            assert(vs.subrange(0, i + 1).last() == vs[i as int]);
        }
        i = i + 1;
    }
    proof {
        assert(view_data(*l_datum).subrange(0, l_datum.len() as int) =~= view_data(
            *l_datum,
        ));
    }
    out
}

/// The wire bytes of one argument: integers and floats fixed-width, strings
/// and blobs padded.
pub open spec fn spec_encode_datum(d: DatumV) -> Seq<u8> {
    match d {
        DatumV::Int(i) => spec_encode_i32(i as i32),
        DatumV::Float(b) => spec_encode_u32(b),
        DatumV::Str(s) => spec_encode_string(s),
        DatumV::Blob(b) => spec_encode_blob(b),
    }
}

/// Whether an argument can be encoded: its view round-trips the machine
/// widths involved.
pub open spec fn datum_encodable(d: DatumV) -> bool {
    match d {
        DatumV::Blob(b) => b.len() <= i32::MAX,
        _ => true,
    }
}

/// Encodes one argument.
pub fn encode_datum(datum: &Datum) -> (r: Vec<u8>)
    requires
        datum_encodable(datum@),
    ensures
        r@ == spec_encode_datum(datum@),
{
    match datum {
        Datum::Int(i) => encode_i32(*i),
        Datum::Float(b) => encode_f32(*b),
        Datum::Str(s) => encode_string(s),
        Datum::Blob(b) => encode_blob(b),
    }
}

/// A typed message: an address and its arguments.
pub struct Message {
    pub name: String,
    pub l_datum: Vec<Datum>,
}

/// The concatenated encodings of the first `n` arguments.
pub open spec fn spec_encode_data(l: Seq<DatumV>, n: int) -> Seq<u8>
    decreases n,
{
    if n <= 0 || n > l.len() {
        Seq::empty()
    } else {
        spec_encode_data(l, n - 1) + spec_encode_datum(l[n - 1])
    }
}

/// The wire bytes of a whole message: padded address, padded descriptor,
/// then each argument's encoding in order.
pub open spec fn spec_encode_message(name: Seq<char>, l: Seq<DatumV>) -> Seq<u8> {
    spec_encode_string(name) + spec_extend_zero(spec_descriptor(l)) + spec_encode_data(
        l,
        l.len() as int,
    )
}

/// Encodes a whole message.
pub fn encode_message(message: &Message) -> (r: Vec<u8>)
    requires
        forall|i: int|
            0 <= i < view_data(message.l_datum).len() ==> datum_encodable(
                #[trigger] view_data(message.l_datum)[i],
            ),
    ensures
        r@ == spec_encode_message(message.name@, view_data(message.l_datum)),
{
    proof {
        lemma_view_data_prefix(message.l_datum, message.l_datum.len() as int);
    }
    let mut es = encode_string(&message.name);
    let d = descriptor(&message.l_datum);
    let dpad = extend_zero(&d);
    let ghost vs = view_data(message.l_datum);
    let ghost head = spec_encode_string(message.name@) + spec_extend_zero(
        spec_descriptor(vs),
    );
    let mut k: usize = 0;
    while k < dpad.len()
        invariant
            k <= dpad.len(),
            dpad@ == spec_extend_zero(spec_descriptor(vs)),
            es@ =~= spec_encode_string(message.name@) + dpad@.subrange(0, k as int),
        decreases dpad.len() - k,
    {
        es.push(dpad[k]);
        k = k + 1;
    }
    proof {
        assert(es@ =~= head);
    }
    let mut i: usize = 0;
    while i < message.l_datum.len()
        invariant
            i <= message.l_datum.len(),
            vs == view_data(message.l_datum),
            vs.len() == message.l_datum.len(),
            head == spec_encode_string(message.name@) + spec_extend_zero(
                spec_descriptor(vs),
            ),
            forall|j: int| 0 <= j < vs.len() ==> vs[j] == message.l_datum[j]@,
            forall|j: int| 0 <= j < vs.len() ==> datum_encodable(#[trigger] vs[j]),
            es@ =~= head + spec_encode_data(vs, i as int),
        decreases message.l_datum.len() - i,
    {
        proof {
            assert(datum_encodable(vs[i as int]));
            assert(vs[i as int] == message.l_datum[i as int]@);
        }
        let e = encode_datum(&message.l_datum[i]);
        let mut k2: usize = 0;
        while k2 < e.len()
            invariant
                k2 <= e.len(),
                e@ == spec_encode_datum(vs[i as int]),
                i < vs.len(),
                es@ =~= head + spec_encode_data(vs, i as int) + e@.subrange(0, k2 as int),
            decreases e.len() - k2,
        {
            es.push(e[k2]);
            k2 = k2 + 1;
        }
        i = i + 1;
    }
    proof {
        assert(es@ =~= spec_encode_message(message.name@, vs));
    }
    es
}

/// Builds the two startup messages for the rendering engine: a notify
/// request and the creation of the default group. The transport sends them
/// in order.
pub fn sc_start() -> (msgs: Vec<Vec<u8>>)
    ensures
        msgs@.len() == 2,
        msgs@[0]@ == spec_encode_message("/notify"@, seq![DatumV::Int(1)]),
        msgs@[1]@ == spec_encode_message(
            "/g_new"@,
            seq![DatumV::Int(1), DatumV::Int(1), DatumV::Int(0)],
        ),
{
    let mut d1: Vec<Datum> = Vec::new();
    d1.push(Datum::Int(1));
    let msg1 = Message { name: "/notify".to_owned(), l_datum: d1 };
    proof {
        lemma_view_data_prefix(msg1.l_datum, 1);
        assert(view_data(msg1.l_datum) =~= seq![DatumV::Int(1)]);
    }
    let b1 = encode_message(&msg1);
    let mut d2: Vec<Datum> = Vec::new();
    d2.push(Datum::Int(1));
    d2.push(Datum::Int(1));
    d2.push(Datum::Int(0));
    let msg2 = Message { name: "/g_new".to_owned(), l_datum: d2 };
    proof {
        lemma_view_data_prefix(msg2.l_datum, 3);
        assert(view_data(msg2.l_datum) =~= seq![
            DatumV::Int(1),
            DatumV::Int(1),
            DatumV::Int(0),
        ]);
    }
    let b2 = encode_message(&msg2);
    let mut out: Vec<Vec<u8>> = Vec::new();
    out.push(b1);
    out.push(b2);
    out
}

/// Builds the shutdown message for the rendering engine: a deep free of the
/// default group. The transport sends it and then closes.
pub fn sc_stop() -> (msgs: Vec<Vec<u8>>)
    ensures
        msgs@.len() == 1,
        msgs@[0]@ == spec_encode_message("/g_deepFree"@, seq![DatumV::Int(1)]),
{
    let mut d1: Vec<Datum> = Vec::new();
    d1.push(Datum::Int(1));
    let msg1 = Message { name: "/g_deepFree".to_owned(), l_datum: d1 };
    proof {
        lemma_view_data_prefix(msg1.l_datum, 1);
        assert(view_data(msg1.l_datum) =~= seq![DatumV::Int(1)]);
    }
    let b1 = encode_message(&msg1);
    let mut out: Vec<Vec<u8>> = Vec::new();
    out.push(b1);
    out
}

} // verus!
