//! The binary packer: a compiled dataset as one deterministic byte blob,
//! optionally compressed.
//!
//! The layout is the classic fixed-width little-endian form: every integer
//! little-endian at its full width, every string as an 8-byte byte-length
//! followed by its UTF-8 bytes, every sequence as an 8-byte count followed by
//! its elements, and every tag enumeration as the 4-byte index of its
//! variant. It is byte-compatible with what the usual serde binary encoders
//! produce for the equivalent structures under their default fixed-integer
//! little-endian options.

use vstd::prelude::*;

use vstd::bytes::spec_u128_to_le_bytes;
use vstd::bytes::spec_u32_to_le_bytes;
use vstd::bytes::spec_u64_to_le_bytes;
use vstd::bytes::u128_to_le_bytes;
use vstd::bytes::u32_to_le_bytes;
use vstd::bytes::u64_to_le_bytes;
use vstd::utf8::encode_utf8;

use crate::excel_define::CellType;
use crate::excel_define::GameConfig;
use crate::excel_define::GameConfigView;
use crate::excel_define::GameConfigs;
use crate::excel_define::GameConfigsView;
use crate::excel_define::KeyType;

verus! {

/// The variant index of a visibility tag, in declaration order.
pub open spec fn key_code(k: KeyType) -> u32 {
    match k {
        KeyType::AllKey => 0,
        KeyType::All => 1,
        KeyType::Client => 2,
        KeyType::ClientKey => 3,
        KeyType::Server => 4,
        KeyType::ServerKey => 5,
    }
}

/// The variant index of a cell type, in declaration order.
pub open spec fn cell_code(t: CellType) -> u32 {
    match t {
        CellType::UInt => 0,
        CellType::Int => 1,
        CellType::Long => 2,
        CellType::String => 3,
        CellType::Bool => 4,
        CellType::Vector3ArrayInt => 5,
        CellType::Vector3Int => 6,
        CellType::Vector2Int => 7,
        CellType::Vector3UInt => 8,
        CellType::Vector2UInt => 9,
        CellType::Vector2ArrayInt => 10,
        CellType::ArrayInt => 11,
        CellType::ArrayUInt => 12,
        CellType::DictionaryStringFloat => 13,
        CellType::DictionaryStringInt => 14,
        CellType::Lang => 15,
        CellType::Float => 16,
        CellType::Double => 17,
        CellType::Vector2Float => 18,
        CellType::Vector3Float => 19,
        CellType::Vector2String => 20,
    }
}

/// A string: its UTF-8 byte length as 8 little-endian bytes, then the bytes.
pub open spec fn enc_str(s: Seq<char>) -> Seq<u8> {
    spec_u64_to_le_bytes(encode_utf8(s).len() as u64) + encode_utf8(s)
}

pub open spec fn cat_strs(v: Seq<Seq<char>>) -> Seq<u8>
    decreases v.len(),
{
    if v.len() == 0 {
        Seq::empty()
    } else {
        enc_str(v[0]) + cat_strs(v.drop_first())
    }
}

/// A sequence of strings: its count as 8 bytes, then each string.
pub open spec fn enc_str_seq(v: Seq<Seq<char>>) -> Seq<u8> {
    spec_u64_to_le_bytes(v.len() as u64) + cat_strs(v)
}

pub open spec fn cat_keys(v: Seq<KeyType>) -> Seq<u8>
    decreases v.len(),
{
    if v.len() == 0 {
        Seq::empty()
    } else {
        spec_u32_to_le_bytes(key_code(v[0])) + cat_keys(v.drop_first())
    }
}

/// A sequence of visibility tags: its count, then each tag's variant index.
pub open spec fn enc_key_seq(v: Seq<KeyType>) -> Seq<u8> {
    spec_u64_to_le_bytes(v.len() as u64) + cat_keys(v)
}

pub open spec fn cat_cells(v: Seq<CellType>) -> Seq<u8>
    decreases v.len(),
{
    if v.len() == 0 {
        Seq::empty()
    } else {
        spec_u32_to_le_bytes(cell_code(v[0])) + cat_cells(v.drop_first())
    }
}

/// A sequence of cell types: its count, then each type's variant index.
pub open spec fn enc_cell_seq(v: Seq<CellType>) -> Seq<u8> {
    spec_u64_to_le_bytes(v.len() as u64) + cat_cells(v)
}

pub open spec fn cat_rows(v: Seq<Seq<Seq<char>>>) -> Seq<u8>
    decreases v.len(),
{
    if v.len() == 0 {
        Seq::empty()
    } else {
        enc_str_seq(v[0]) + cat_rows(v.drop_first())
    }
}

/// The data rows: their count, then each row as a sequence of strings.
pub open spec fn enc_rows(v: Seq<Seq<Seq<char>>>) -> Seq<u8> {
    spec_u64_to_le_bytes(v.len() as u64) + cat_rows(v)
}

/// One table: its five fields in declaration order.
pub open spec fn enc_config(c: GameConfigView) -> Seq<u8> {
    enc_str(c.name) + enc_str_seq(c.cell_name) + enc_key_seq(c.key_type) + enc_cell_seq(
        c.cell_type,
    ) + enc_rows(c.data)
}

pub open spec fn cat_configs(v: Seq<GameConfigView>) -> Seq<u8>
    decreases v.len(),
{
    if v.len() == 0 {
        Seq::empty()
    } else {
        enc_config(v[0]) + cat_configs(v.drop_first())
    }
}

/// A whole dataset: the revision label, the creation time as 16 bytes, and
/// the tables behind their count.
pub open spec fn enc_game_configs(g: GameConfigsView) -> Seq<u8> {
    enc_str(g.commit_id) + spec_u128_to_le_bytes(g.create_mills) + spec_u64_to_le_bytes(
        g.data.len() as u64,
    ) + cat_configs(g.data)
}

fn push_u64(out: &mut Vec<u8>, x: u64)
    ensures
        final(out)@ == old(out)@ + spec_u64_to_le_bytes(x),
{
    let mut b = u64_to_le_bytes(x);
    out.append(&mut b);
}

fn push_u32(out: &mut Vec<u8>, x: u32)
    ensures
        final(out)@ == old(out)@ + spec_u32_to_le_bytes(x),
{
    let mut b = u32_to_le_bytes(x);
    out.append(&mut b);
}

fn push_str(out: &mut Vec<u8>, s: &str)
    ensures
        final(out)@ == old(out)@ + enc_str(s@),
{
    let bytes = s.as_bytes();
    push_u64(out, bytes.len() as u64);
    let ghost mid = out@;
    out.extend_from_slice(bytes);
    proof {
        assert(out@ =~= mid + encode_utf8(s@));
        assert(old(out)@ + spec_u64_to_le_bytes(encode_utf8(s@).len() as u64) + encode_utf8(s@)
            =~= old(out)@ + enc_str(s@));
    }
}

/// The code of one visibility tag.
fn key_code_exec(k: &KeyType) -> (r: u32)
    ensures
        r == key_code(*k),
{
    match k {
        KeyType::AllKey => 0,
        KeyType::All => 1,
        KeyType::Client => 2,
        KeyType::ClientKey => 3,
        KeyType::Server => 4,
        KeyType::ServerKey => 5,
    }
}

/// The code of one cell type.
fn cell_code_exec(t: &CellType) -> (r: u32)
    ensures
        r == cell_code(*t),
{
    match t {
        CellType::UInt => 0,
        CellType::Int => 1,
        CellType::Long => 2,
        CellType::String => 3,
        CellType::Bool => 4,
        CellType::Vector3ArrayInt => 5,
        CellType::Vector3Int => 6,
        CellType::Vector2Int => 7,
        CellType::Vector3UInt => 8,
        CellType::Vector2UInt => 9,
        CellType::Vector2ArrayInt => 10,
        CellType::ArrayInt => 11,
        CellType::ArrayUInt => 12,
        CellType::DictionaryStringFloat => 13,
        CellType::DictionaryStringInt => 14,
        CellType::Lang => 15,
        CellType::Float => 16,
        CellType::Double => 17,
        CellType::Vector2Float => 18,
        CellType::Vector3Float => 19,
        CellType::Vector2String => 20,
    }
}

fn push_str_seq(out: &mut Vec<u8>, v: &Vec<String>)
    ensures
        final(out)@ == old(out)@ + enc_str_seq(v.deep_view()),
{
    let ghost vs = v.deep_view();
    push_u64(out, v.len() as u64);
    let ghost base = out@;
    let mut i: usize = 0;
    proof {
        assert(vs.skip(0) =~= vs);
        assert(base + Seq::<u8>::empty() =~= base);
    }
    while i < v.len()
        invariant
            i <= v@.len(),
            vs == v.deep_view(),
            base + cat_strs(vs) == out@ + cat_strs(vs.skip(i as int)),
        decreases v@.len() - i,
    {
        proof {
            assert(vs.skip(i as int)[0] == vs[i as int]);
            assert(vs[i as int] == v@[i as int]@);
            assert(vs.skip(i as int).drop_first() =~= vs.skip(i + 1));
        }
        let ghost before = out@;
        push_str(out, v[i].as_str());
        proof {
            assert(before + (enc_str(vs[i as int]) + cat_strs(vs.skip(i + 1))) =~= (before
                + enc_str(vs[i as int])) + cat_strs(vs.skip(i + 1)));
        }
        i = i + 1;
    }
    proof {
        assert(cat_strs(vs.skip(vs.len() as int)) =~= Seq::<u8>::empty());
        assert(out@ + Seq::<u8>::empty() =~= out@);
        assert(old(out)@ + enc_str_seq(vs) =~= base + cat_strs(vs));
    }
}

fn push_key_seq(out: &mut Vec<u8>, v: &Vec<KeyType>)
    ensures
        final(out)@ == old(out)@ + enc_key_seq(v@),
{
    push_u64(out, v.len() as u64);
    let ghost base = out@;
    let mut i: usize = 0;
    proof {
        assert(v@.skip(0) =~= v@);
        assert(base + Seq::<u8>::empty() =~= base);
    }
    while i < v.len()
        invariant
            i <= v@.len(),
            base + cat_keys(v@) == out@ + cat_keys(v@.skip(i as int)),
        decreases v@.len() - i,
    {
        proof {
            assert(v@.skip(i as int)[0] == v@[i as int]);
            assert(v@.skip(i as int).drop_first() =~= v@.skip(i + 1));
        }
        let ghost before = out@;
        let code = key_code_exec(&v[i]);
        push_u32(out, code);
        proof {
            assert(before + (spec_u32_to_le_bytes(key_code(v@[i as int])) + cat_keys(
                v@.skip(i + 1),
            )) =~= (before + spec_u32_to_le_bytes(key_code(v@[i as int]))) + cat_keys(
                v@.skip(i + 1),
            ));
        }
        i = i + 1;
    }
    proof {
        assert(cat_keys(v@.skip(v@.len() as int)) =~= Seq::<u8>::empty());
        assert(out@ + Seq::<u8>::empty() =~= out@);
        assert(old(out)@ + enc_key_seq(v@) =~= base + cat_keys(v@));
    }
}

fn push_cell_seq(out: &mut Vec<u8>, v: &Vec<CellType>)
    ensures
        final(out)@ == old(out)@ + enc_cell_seq(v@),
{
    push_u64(out, v.len() as u64);
    let ghost base = out@;
    let mut i: usize = 0;
    proof {
        assert(v@.skip(0) =~= v@);
        assert(base + Seq::<u8>::empty() =~= base);
    }
    while i < v.len()
        invariant
            i <= v@.len(),
            base + cat_cells(v@) == out@ + cat_cells(v@.skip(i as int)),
        decreases v@.len() - i,
    {
        proof {
            assert(v@.skip(i as int)[0] == v@[i as int]);
            assert(v@.skip(i as int).drop_first() =~= v@.skip(i + 1));
        }
        let ghost before = out@;
        let code = cell_code_exec(&v[i]);
        push_u32(out, code);
        proof {
            assert(before + (spec_u32_to_le_bytes(cell_code(v@[i as int])) + cat_cells(
                v@.skip(i + 1),
            )) =~= (before + spec_u32_to_le_bytes(cell_code(v@[i as int]))) + cat_cells(
                v@.skip(i + 1),
            ));
        }
        i = i + 1;
    }
    proof {
        assert(cat_cells(v@.skip(v@.len() as int)) =~= Seq::<u8>::empty());
        assert(out@ + Seq::<u8>::empty() =~= out@);
        assert(old(out)@ + enc_cell_seq(v@) =~= base + cat_cells(v@));
    }
}

fn push_rows(out: &mut Vec<u8>, v: &Vec<Vec<String>>)
    ensures
        final(out)@ == old(out)@ + enc_rows(v.deep_view()),
{
    let ghost vs = v.deep_view();
    push_u64(out, v.len() as u64);
    let ghost base = out@;
    let mut i: usize = 0;
    proof {
        assert(vs.skip(0) =~= vs);
        assert(base + Seq::<u8>::empty() =~= base);
    }
    while i < v.len()
        invariant
            i <= v@.len(),
            vs == v.deep_view(),
            base + cat_rows(vs) == out@ + cat_rows(vs.skip(i as int)),
        decreases v@.len() - i,
    {
        proof {
            assert(vs.skip(i as int)[0] == vs[i as int]);
            assert(vs[i as int] == v@[i as int].deep_view());
            assert(vs.skip(i as int).drop_first() =~= vs.skip(i + 1));
        }
        let ghost before = out@;
        push_str_seq(out, &v[i]);
        proof {
            assert(before + (enc_str_seq(vs[i as int]) + cat_rows(vs.skip(i + 1))) =~= (before
                + enc_str_seq(vs[i as int])) + cat_rows(vs.skip(i + 1)));
        }
        i = i + 1;
    }
    proof {
        assert(cat_rows(vs.skip(vs.len() as int)) =~= Seq::<u8>::empty());
        assert(out@ + Seq::<u8>::empty() =~= out@);
        assert(old(out)@ + enc_rows(vs) =~= base + cat_rows(vs));
    }
}

fn push_config(out: &mut Vec<u8>, c: &GameConfig)
    ensures
        final(out)@ == old(out)@ + enc_config(c@),
{
    push_str(out, c.name.as_str());
    push_str_seq(out, &c.cell_name);
    push_key_seq(out, &c.key_type);
    push_cell_seq(out, &c.cell_type);
    push_rows(out, &c.data);
    proof {
        assert(out@ =~= old(out)@ + enc_config(c@));
    }
}

/// Encodes a whole dataset as its deterministic byte blob: equal datasets
/// give byte-identical blobs, since the encoding is a function of the value.
pub fn encode_game_configs(g: &GameConfigs) -> (r: Vec<u8>)
    ensures
        r@ == enc_game_configs(g@),
{
    let mut out: Vec<u8> = Vec::new();
    push_str(&mut out, g.commit_id.as_str());
    let mut stamp = u128_to_le_bytes(g.create_mills);
    out.append(&mut stamp);
    let ghost tables = g.data.deep_view();
    push_u64(&mut out, g.data.len() as u64);
    let ghost base = out@;
    let mut i: usize = 0;
    proof {
        assert(tables.skip(0) =~= tables);
        assert(base + Seq::<u8>::empty() =~= base);
    }
    while i < g.data.len()
        invariant
            i <= g.data@.len(),
            tables == g.data.deep_view(),
            base + cat_configs(tables) == out@ + cat_configs(tables.skip(i as int)),
        decreases g.data@.len() - i,
    {
        proof {
            assert(tables.skip(i as int)[0] == tables[i as int]);
            assert(tables[i as int] == g.data@[i as int].deep_view());
            assert(tables.skip(i as int).drop_first() =~= tables.skip(i + 1));
        }
        let ghost before = out@;
        push_config(&mut out, &g.data[i]);
        proof {
            assert(before + (enc_config(tables[i as int]) + cat_configs(tables.skip(i + 1)))
                =~= (before + enc_config(tables[i as int])) + cat_configs(tables.skip(i + 1)));
        }
        i = i + 1;
    }
    proof {
        assert(cat_configs(tables.skip(tables.len() as int)) =~= Seq::<u8>::empty());
        assert(out@ + Seq::<u8>::empty() =~= out@);
        assert(out@ =~= enc_game_configs(g@));
    }
    out
}

/// The LZ4 frame that compressing `data` at `level` produces: a function of
/// the input bytes and the level alone.
pub uninterp spec fn lz4_frame_of(data: Seq<u8>, level: u32) -> Seq<u8>;

/// Relies on `lz4::EncoderBuilder` and `lz4::Encoder`: the whole input is
/// written through the frame compressor into an in-memory buffer and the
/// frame is finished. The builder pins every frame preference, so the output
/// depends only on the input bytes and the compression level. Every
/// compressor call writes into a buffer sized by `LZ4F_compressBound` and the
/// sink is a `Vec`, so no write can fail; what remains is allocation failure,
/// which this library disregards as the standard collections do (they abort),
/// hence the call is relied on to succeed.
#[verifier::external_body]
fn lz4_compress(data: &Vec<u8>, level: u32) -> (r: Vec<u8>)
    ensures
        r@ == lz4_frame_of(data@, level),
{
    let sink: Vec<u8> = Vec::new();
    let mut encoder = lz4::EncoderBuilder::new().level(level).build(sink).unwrap();
    std::io::Write::write_all(&mut encoder, data.as_slice()).unwrap();
    let (out, result) = encoder.finish();
    result.unwrap();
    out
}

/// Encodes the dataset and compresses the blob at the given effort level
/// (0 fastest and largest, higher levels slower and smaller).
pub fn pack_game_configs(g: &GameConfigs, level: u32) -> (r: Vec<u8>)
    ensures
        r@ == lz4_frame_of(enc_game_configs(g@), level),
{
    let encoded = encode_game_configs(g);
    lz4_compress(&encoded, level)
}

/// A failure of decoding: the blob ends before a field it promises, or a
/// field holds no valid value.
#[derive(Debug, Clone, PartialEq, Eq)]
pub enum DecodeError {
    /// The blob is shorter than its length fields claim.
    Truncated,
    /// A field is present but holds no valid value.
    Invalid,
}

/// Relies on `core::str::from_utf8`: it succeeds exactly on valid UTF-8 and
/// the returned string view has the input as its byte encoding.
#[verifier::external_body]
fn bytes_to_str(v: &[u8]) -> (r: Option<&str>)
    ensures
        r matches Some(s) ==> encode_utf8(s@) == v@,
        r is Some <==> vstd::utf8::valid_utf8(v@),
{
    core::str::from_utf8(v).ok()
}

proof fn lemma_concat_parts(a1: Seq<u8>, b1: Seq<u8>, a2: Seq<u8>, b2: Seq<u8>)
    requires
        a1 + b1 == a2 + b2,
        a1.len() == a2.len(),
    ensures
        a1 == a2,
        b1 == b2,
{
    assert((a1 + b1).len() == a1.len() + b1.len());
    assert((a2 + b2).len() == a2.len() + b2.len());
    assert forall|i: int| 0 <= i < a1.len() implies a1[i] == a2[i] by {
        assert((a1 + b1)[i] == a1[i]);
        assert((a2 + b2)[i] == a2[i]);
    }
    assert(a1 =~= a2);
    assert(b1.len() == b2.len());
    assert forall|i: int| 0 <= i < b1.len() implies b1[i] == b2[i] by {
        assert((a1 + b1)[a1.len() + i] == b1[i]);
        assert((a2 + b2)[a2.len() + i] == b2[i]);
    }
    assert(b1 =~= b2);
}

/// Two string encodings at the same position of one byte sequence are the
/// same encoding: the length prefix pins the end, the bytes pin the string.
proof fn lemma_enc_str_aligned(b: Seq<u8>, p: int, e1: int, e2: int, s1: Seq<char>, s2: Seq<char>)
    requires
        b.len() <= u64::MAX,
        0 <= p,
        p <= e1 <= b.len(),
        p <= e2 <= b.len(),
        b.subrange(p, e1) == enc_str(s1),
        b.subrange(p, e2) == enc_str(s2),
    ensures
        e1 == e2,
        s1 == s2,
{
    vstd::bytes::lemma_auto_spec_u64_to_from_le_bytes();
    let l1 = encode_utf8(s1).len() as int;
    let l2 = encode_utf8(s2).len() as int;
    assert(spec_u64_to_le_bytes(encode_utf8(s1).len() as u64).len() == 8);
    assert(spec_u64_to_le_bytes(encode_utf8(s2).len() as u64).len() == 8);
    assert(enc_str(s1).len() == 8 + l1);
    assert(enc_str(s2).len() == 8 + l2);
    assert(e1 - p == 8 + l1);
    assert(e2 - p == 8 + l2);
    assert(b.subrange(p, p + 8) =~= b.subrange(p, e1).subrange(0, 8));
    assert(enc_str(s1).subrange(0, 8) =~= spec_u64_to_le_bytes(encode_utf8(s1).len() as u64));
    assert(b.subrange(p, p + 8) =~= b.subrange(p, e2).subrange(0, 8));
    assert(enc_str(s2).subrange(0, 8) =~= spec_u64_to_le_bytes(encode_utf8(s2).len() as u64));
    assert(encode_utf8(s1).len() as u64 == encode_utf8(s2).len() as u64);
    assert(l1 == l2);
    assert(e1 == e2);
    lemma_concat_parts(
        spec_u64_to_le_bytes(encode_utf8(s1).len() as u64),
        encode_utf8(s1),
        spec_u64_to_le_bytes(encode_utf8(s2).len() as u64),
        encode_utf8(s2),
    );
    vstd::utf8::encode_utf8_decode_utf8(s1);
    vstd::utf8::encode_utf8_decode_utf8(s2);
}

proof fn lemma_cat_strs_min(v: Seq<Seq<char>>)
    ensures
        cat_strs(v).len() >= v.len(),
    decreases v.len(),
{
    vstd::bytes::lemma_auto_spec_u64_to_from_le_bytes();
    if v.len() > 0 {
        lemma_cat_strs_min(v.drop_first());
    }
}

proof fn lemma_cat_strs_aligned(
    b: Seq<u8>,
    p: int,
    e1: int,
    e2: int,
    v1: Seq<Seq<char>>,
    v2: Seq<Seq<char>>,
)
    requires
        b.len() <= u64::MAX,
        v1.len() == v2.len(),
        0 <= p,
        p <= e1 <= b.len(),
        p <= e2 <= b.len(),
        b.subrange(p, e1) == cat_strs(v1),
        b.subrange(p, e2) == cat_strs(v2),
    ensures
        e1 == e2,
        v1 == v2,
    decreases v1.len(),
{
    if v1.len() == 0 {
        assert(v1 =~= v2);
    } else {
        let a1 = enc_str(v1[0]);
        let a2 = enc_str(v2[0]);
        let q1 = p + a1.len();
        let q2 = p + a2.len();
        assert(cat_strs(v1) == a1 + cat_strs(v1.drop_first()));
        assert(cat_strs(v2) == a2 + cat_strs(v2.drop_first()));
        assert((a1 + cat_strs(v1.drop_first())).len() == a1.len() + cat_strs(v1.drop_first()).len());
        assert((a2 + cat_strs(v2.drop_first())).len() == a2.len() + cat_strs(v2.drop_first()).len());
        assert(e1 - p == a1.len() + cat_strs(v1.drop_first()).len());
        assert(e2 - p == a2.len() + cat_strs(v2.drop_first()).len());
        assert(b.subrange(p, q1) =~= b.subrange(p, e1).subrange(0, a1.len() as int));
        assert((a1 + cat_strs(v1.drop_first())).subrange(0, a1.len() as int) =~= a1);
        assert(b.subrange(p, q2) =~= b.subrange(p, e2).subrange(0, a2.len() as int));
        assert((a2 + cat_strs(v2.drop_first())).subrange(0, a2.len() as int) =~= a2);
        lemma_enc_str_aligned(b, p, q1, q2, v1[0], v2[0]);
        assert(b.subrange(q1, e1) =~= b.subrange(p, e1).subrange(a1.len() as int, e1 - p));
        assert((a1 + cat_strs(v1.drop_first())).subrange(a1.len() as int, e1 - p) =~= cat_strs(
            v1.drop_first(),
        ));
        assert(b.subrange(q2, e2) =~= b.subrange(p, e2).subrange(a2.len() as int, e2 - p));
        assert((a2 + cat_strs(v2.drop_first())).subrange(a2.len() as int, e2 - p) =~= cat_strs(
            v2.drop_first(),
        ));
        lemma_cat_strs_aligned(b, q1, e1, e2, v1.drop_first(), v2.drop_first());
        assert forall|i: int| 0 <= i < v1.len() implies v1[i] == v2[i] by {
            if i > 0 {
                assert(v1.drop_first()[i - 1] == v2.drop_first()[i - 1]);
            }
        }
        assert(v1 =~= v2);
    }
}

/// Two string-sequence encodings at the same position are the same encoding.
proof fn lemma_enc_str_seq_aligned(
    b: Seq<u8>,
    p: int,
    e1: int,
    e2: int,
    v1: Seq<Seq<char>>,
    v2: Seq<Seq<char>>,
)
    requires
        b.len() <= u64::MAX,
        0 <= p,
        p <= e1 <= b.len(),
        p <= e2 <= b.len(),
        b.subrange(p, e1) == enc_str_seq(v1),
        b.subrange(p, e2) == enc_str_seq(v2),
    ensures
        e1 == e2,
        v1 == v2,
{
    vstd::bytes::lemma_auto_spec_u64_to_from_le_bytes();
    lemma_cat_strs_min(v1);
    lemma_cat_strs_min(v2);
    assert(spec_u64_to_le_bytes(v1.len() as u64).len() == 8);
    assert(spec_u64_to_le_bytes(v2.len() as u64).len() == 8);
    assert(enc_str_seq(v1).len() == 8 + cat_strs(v1).len());
    assert(enc_str_seq(v2).len() == 8 + cat_strs(v2).len());
    assert(b.subrange(p, p + 8) =~= b.subrange(p, e1).subrange(0, 8));
    assert(enc_str_seq(v1).subrange(0, 8) =~= spec_u64_to_le_bytes(v1.len() as u64));
    assert(b.subrange(p, p + 8) =~= b.subrange(p, e2).subrange(0, 8));
    assert(enc_str_seq(v2).subrange(0, 8) =~= spec_u64_to_le_bytes(v2.len() as u64));
    assert(v1.len() as u64 == v2.len() as u64);
    assert(v1.len() == v2.len());
    assert(b.subrange(p + 8, e1) =~= b.subrange(p, e1).subrange(8, e1 - p));
    assert(enc_str_seq(v1).subrange(8, e1 - p) =~= cat_strs(v1));
    assert(b.subrange(p + 8, e2) =~= b.subrange(p, e2).subrange(8, e2 - p));
    assert(enc_str_seq(v2).subrange(8, e2 - p) =~= cat_strs(v2));
    lemma_cat_strs_aligned(b, p + 8, e1, e2, v1, v2);
}

proof fn lemma_cat_keys_aligned(
    b: Seq<u8>,
    p: int,
    e1: int,
    e2: int,
    v1: Seq<KeyType>,
    v2: Seq<KeyType>,
)
    requires
        v1.len() == v2.len(),
        0 <= p,
        p <= e1 <= b.len(),
        p <= e2 <= b.len(),
        b.subrange(p, e1) == cat_keys(v1),
        b.subrange(p, e2) == cat_keys(v2),
    ensures
        e1 == e2,
        v1 == v2,
    decreases v1.len(),
{
    vstd::bytes::lemma_auto_spec_u32_to_from_le_bytes();
    if v1.len() == 0 {
        assert(v1 =~= v2);
    } else {
        let a1 = spec_u32_to_le_bytes(key_code(v1[0]));
        let a2 = spec_u32_to_le_bytes(key_code(v2[0]));
        assert(a1.len() == 4);
        assert(a2.len() == 4);
        assert(cat_keys(v1) == a1 + cat_keys(v1.drop_first()));
        assert(cat_keys(v2) == a2 + cat_keys(v2.drop_first()));
        assert((a1 + cat_keys(v1.drop_first())).len() == a1.len() + cat_keys(v1.drop_first()).len());
        assert((a2 + cat_keys(v2.drop_first())).len() == a2.len() + cat_keys(v2.drop_first()).len());
        assert(e1 - p == 4 + cat_keys(v1.drop_first()).len());
        assert(e2 - p == 4 + cat_keys(v2.drop_first()).len());
        assert(b.subrange(p, p + 4) =~= b.subrange(p, e1).subrange(0, 4));
        assert((a1 + cat_keys(v1.drop_first())).subrange(0, 4) =~= a1);
        assert(b.subrange(p, p + 4) =~= b.subrange(p, e2).subrange(0, 4));
        assert((a2 + cat_keys(v2.drop_first())).subrange(0, 4) =~= a2);
        assert(key_code(v1[0]) == key_code(v2[0]));
        assert(v1[0] == v2[0]);
        assert(b.subrange(p + 4, e1) =~= b.subrange(p, e1).subrange(4, e1 - p));
        assert((a1 + cat_keys(v1.drop_first())).subrange(4, e1 - p) =~= cat_keys(v1.drop_first()));
        assert(b.subrange(p + 4, e2) =~= b.subrange(p, e2).subrange(4, e2 - p));
        assert((a2 + cat_keys(v2.drop_first())).subrange(4, e2 - p) =~= cat_keys(v2.drop_first()));
        lemma_cat_keys_aligned(b, p + 4, e1, e2, v1.drop_first(), v2.drop_first());
        assert forall|i: int| 0 <= i < v1.len() implies v1[i] == v2[i] by {
            if i > 0 {
                assert(v1.drop_first()[i - 1] == v2.drop_first()[i - 1]);
            }
        }
        assert(v1 =~= v2);
    }
}

proof fn lemma_cat_keys_min(v: Seq<KeyType>)
    ensures
        cat_keys(v).len() >= v.len(),
    decreases v.len(),
{
    vstd::bytes::lemma_auto_spec_u32_to_from_le_bytes();
    if v.len() > 0 {
        lemma_cat_keys_min(v.drop_first());
    }
}

/// Two tag-sequence encodings at the same position are the same encoding.
proof fn lemma_enc_key_seq_aligned(
    b: Seq<u8>,
    p: int,
    e1: int,
    e2: int,
    v1: Seq<KeyType>,
    v2: Seq<KeyType>,
)
    requires
        b.len() <= u64::MAX,
        0 <= p,
        p <= e1 <= b.len(),
        p <= e2 <= b.len(),
        b.subrange(p, e1) == enc_key_seq(v1),
        b.subrange(p, e2) == enc_key_seq(v2),
    ensures
        e1 == e2,
        v1 == v2,
{
    vstd::bytes::lemma_auto_spec_u64_to_from_le_bytes();
    lemma_cat_keys_min(v1);
    lemma_cat_keys_min(v2);
    assert(spec_u64_to_le_bytes(v1.len() as u64).len() == 8);
    assert(spec_u64_to_le_bytes(v2.len() as u64).len() == 8);
    assert(enc_key_seq(v1).len() == 8 + cat_keys(v1).len());
    assert(enc_key_seq(v2).len() == 8 + cat_keys(v2).len());
    assert(b.subrange(p, p + 8) =~= b.subrange(p, e1).subrange(0, 8));
    assert(enc_key_seq(v1).subrange(0, 8) =~= spec_u64_to_le_bytes(v1.len() as u64));
    assert(b.subrange(p, p + 8) =~= b.subrange(p, e2).subrange(0, 8));
    assert(enc_key_seq(v2).subrange(0, 8) =~= spec_u64_to_le_bytes(v2.len() as u64));
    assert(v1.len() == v2.len());
    assert(b.subrange(p + 8, e1) =~= b.subrange(p, e1).subrange(8, e1 - p));
    assert(enc_key_seq(v1).subrange(8, e1 - p) =~= cat_keys(v1));
    assert(b.subrange(p + 8, e2) =~= b.subrange(p, e2).subrange(8, e2 - p));
    assert(enc_key_seq(v2).subrange(8, e2 - p) =~= cat_keys(v2));
    lemma_cat_keys_aligned(b, p + 8, e1, e2, v1, v2);
}

proof fn lemma_cat_cells_aligned(
    b: Seq<u8>,
    p: int,
    e1: int,
    e2: int,
    v1: Seq<CellType>,
    v2: Seq<CellType>,
)
    requires
        v1.len() == v2.len(),
        0 <= p,
        p <= e1 <= b.len(),
        p <= e2 <= b.len(),
        b.subrange(p, e1) == cat_cells(v1),
        b.subrange(p, e2) == cat_cells(v2),
    ensures
        e1 == e2,
        v1 == v2,
    decreases v1.len(),
{
    vstd::bytes::lemma_auto_spec_u32_to_from_le_bytes();
    if v1.len() == 0 {
        assert(v1 =~= v2);
    } else {
        let a1 = spec_u32_to_le_bytes(cell_code(v1[0]));
        let a2 = spec_u32_to_le_bytes(cell_code(v2[0]));
        assert(a1.len() == 4);
        assert(a2.len() == 4);
        assert(cat_cells(v1) == a1 + cat_cells(v1.drop_first()));
        assert(cat_cells(v2) == a2 + cat_cells(v2.drop_first()));
        assert((a1 + cat_cells(v1.drop_first())).len() == a1.len() + cat_cells(v1.drop_first()).len());
        assert((a2 + cat_cells(v2.drop_first())).len() == a2.len() + cat_cells(v2.drop_first()).len());
        assert(e1 - p == 4 + cat_cells(v1.drop_first()).len());
        assert(e2 - p == 4 + cat_cells(v2.drop_first()).len());
        assert(b.subrange(p, p + 4) =~= b.subrange(p, e1).subrange(0, 4));
        assert((a1 + cat_cells(v1.drop_first())).subrange(0, 4) =~= a1);
        assert(b.subrange(p, p + 4) =~= b.subrange(p, e2).subrange(0, 4));
        assert((a2 + cat_cells(v2.drop_first())).subrange(0, 4) =~= a2);
        assert(cell_code(v1[0]) == cell_code(v2[0]));
        assert(v1[0] == v2[0]);
        assert(b.subrange(p + 4, e1) =~= b.subrange(p, e1).subrange(4, e1 - p));
        assert((a1 + cat_cells(v1.drop_first())).subrange(4, e1 - p) =~= cat_cells(
            v1.drop_first(),
        ));
        assert(b.subrange(p + 4, e2) =~= b.subrange(p, e2).subrange(4, e2 - p));
        assert((a2 + cat_cells(v2.drop_first())).subrange(4, e2 - p) =~= cat_cells(
            v2.drop_first(),
        ));
        lemma_cat_cells_aligned(b, p + 4, e1, e2, v1.drop_first(), v2.drop_first());
        assert forall|i: int| 0 <= i < v1.len() implies v1[i] == v2[i] by {
            if i > 0 {
                assert(v1.drop_first()[i - 1] == v2.drop_first()[i - 1]);
            }
        }
        assert(v1 =~= v2);
    }
}

proof fn lemma_cat_cells_min(v: Seq<CellType>)
    ensures
        cat_cells(v).len() >= v.len(),
    decreases v.len(),
{
    vstd::bytes::lemma_auto_spec_u32_to_from_le_bytes();
    if v.len() > 0 {
        lemma_cat_cells_min(v.drop_first());
    }
}

/// Two cell-type-sequence encodings at the same position are the same
/// encoding.
proof fn lemma_enc_cell_seq_aligned(
    b: Seq<u8>,
    p: int,
    e1: int,
    e2: int,
    v1: Seq<CellType>,
    v2: Seq<CellType>,
)
    requires
        b.len() <= u64::MAX,
        0 <= p,
        p <= e1 <= b.len(),
        p <= e2 <= b.len(),
        b.subrange(p, e1) == enc_cell_seq(v1),
        b.subrange(p, e2) == enc_cell_seq(v2),
    ensures
        e1 == e2,
        v1 == v2,
{
    vstd::bytes::lemma_auto_spec_u64_to_from_le_bytes();
    lemma_cat_cells_min(v1);
    lemma_cat_cells_min(v2);
    assert(spec_u64_to_le_bytes(v1.len() as u64).len() == 8);
    assert(spec_u64_to_le_bytes(v2.len() as u64).len() == 8);
    assert(enc_cell_seq(v1).len() == 8 + cat_cells(v1).len());
    assert(enc_cell_seq(v2).len() == 8 + cat_cells(v2).len());
    assert(b.subrange(p, p + 8) =~= b.subrange(p, e1).subrange(0, 8));
    assert(enc_cell_seq(v1).subrange(0, 8) =~= spec_u64_to_le_bytes(v1.len() as u64));
    assert(b.subrange(p, p + 8) =~= b.subrange(p, e2).subrange(0, 8));
    assert(enc_cell_seq(v2).subrange(0, 8) =~= spec_u64_to_le_bytes(v2.len() as u64));
    assert(v1.len() == v2.len());
    assert(b.subrange(p + 8, e1) =~= b.subrange(p, e1).subrange(8, e1 - p));
    assert(enc_cell_seq(v1).subrange(8, e1 - p) =~= cat_cells(v1));
    assert(b.subrange(p + 8, e2) =~= b.subrange(p, e2).subrange(8, e2 - p));
    assert(enc_cell_seq(v2).subrange(8, e2 - p) =~= cat_cells(v2));
    lemma_cat_cells_aligned(b, p + 8, e1, e2, v1, v2);
}

proof fn lemma_cat_rows_min(v: Seq<Seq<Seq<char>>>)
    ensures
        cat_rows(v).len() >= v.len(),
    decreases v.len(),
{
    vstd::bytes::lemma_auto_spec_u64_to_from_le_bytes();
    if v.len() > 0 {
        lemma_cat_rows_min(v.drop_first());
    }
}

proof fn lemma_cat_rows_aligned(
    b: Seq<u8>,
    p: int,
    e1: int,
    e2: int,
    v1: Seq<Seq<Seq<char>>>,
    v2: Seq<Seq<Seq<char>>>,
)
    requires
        b.len() <= u64::MAX,
        v1.len() == v2.len(),
        0 <= p,
        p <= e1 <= b.len(),
        p <= e2 <= b.len(),
        b.subrange(p, e1) == cat_rows(v1),
        b.subrange(p, e2) == cat_rows(v2),
    ensures
        e1 == e2,
        v1 == v2,
    decreases v1.len(),
{
    if v1.len() == 0 {
        assert(v1 =~= v2);
    } else {
        let a1 = enc_str_seq(v1[0]);
        let a2 = enc_str_seq(v2[0]);
        let q1 = p + a1.len();
        let q2 = p + a2.len();
        assert(cat_rows(v1) == a1 + cat_rows(v1.drop_first()));
        assert(cat_rows(v2) == a2 + cat_rows(v2.drop_first()));
        assert((a1 + cat_rows(v1.drop_first())).len() == a1.len() + cat_rows(v1.drop_first()).len());
        assert((a2 + cat_rows(v2.drop_first())).len() == a2.len() + cat_rows(v2.drop_first()).len());
        assert(e1 - p == a1.len() + cat_rows(v1.drop_first()).len());
        assert(e2 - p == a2.len() + cat_rows(v2.drop_first()).len());
        assert(b.subrange(p, q1) =~= b.subrange(p, e1).subrange(0, a1.len() as int));
        assert((a1 + cat_rows(v1.drop_first())).subrange(0, a1.len() as int) =~= a1);
        assert(b.subrange(p, q2) =~= b.subrange(p, e2).subrange(0, a2.len() as int));
        assert((a2 + cat_rows(v2.drop_first())).subrange(0, a2.len() as int) =~= a2);
        lemma_enc_str_seq_aligned(b, p, q1, q2, v1[0], v2[0]);
        assert(b.subrange(q1, e1) =~= b.subrange(p, e1).subrange(a1.len() as int, e1 - p));
        assert((a1 + cat_rows(v1.drop_first())).subrange(a1.len() as int, e1 - p) =~= cat_rows(
            v1.drop_first(),
        ));
        assert(b.subrange(q2, e2) =~= b.subrange(p, e2).subrange(a2.len() as int, e2 - p));
        assert((a2 + cat_rows(v2.drop_first())).subrange(a2.len() as int, e2 - p) =~= cat_rows(
            v2.drop_first(),
        ));
        lemma_cat_rows_aligned(b, q1, e1, e2, v1.drop_first(), v2.drop_first());
        assert forall|i: int| 0 <= i < v1.len() implies v1[i] == v2[i] by {
            if i > 0 {
                assert(v1.drop_first()[i - 1] == v2.drop_first()[i - 1]);
            }
        }
        assert(v1 =~= v2);
    }
}

/// Two row-block encodings at the same position are the same encoding.
proof fn lemma_enc_rows_aligned(
    b: Seq<u8>,
    p: int,
    e1: int,
    e2: int,
    v1: Seq<Seq<Seq<char>>>,
    v2: Seq<Seq<Seq<char>>>,
)
    requires
        b.len() <= u64::MAX,
        0 <= p,
        p <= e1 <= b.len(),
        p <= e2 <= b.len(),
        b.subrange(p, e1) == enc_rows(v1),
        b.subrange(p, e2) == enc_rows(v2),
    ensures
        e1 == e2,
        v1 == v2,
{
    vstd::bytes::lemma_auto_spec_u64_to_from_le_bytes();
    lemma_cat_rows_min(v1);
    lemma_cat_rows_min(v2);
    assert(spec_u64_to_le_bytes(v1.len() as u64).len() == 8);
    assert(spec_u64_to_le_bytes(v2.len() as u64).len() == 8);
    assert(enc_rows(v1).len() == 8 + cat_rows(v1).len());
    assert(enc_rows(v2).len() == 8 + cat_rows(v2).len());
    assert(b.subrange(p, p + 8) =~= b.subrange(p, e1).subrange(0, 8));
    assert(enc_rows(v1).subrange(0, 8) =~= spec_u64_to_le_bytes(v1.len() as u64));
    assert(b.subrange(p, p + 8) =~= b.subrange(p, e2).subrange(0, 8));
    assert(enc_rows(v2).subrange(0, 8) =~= spec_u64_to_le_bytes(v2.len() as u64));
    assert(v1.len() == v2.len());
    assert(b.subrange(p + 8, e1) =~= b.subrange(p, e1).subrange(8, e1 - p));
    assert(enc_rows(v1).subrange(8, e1 - p) =~= cat_rows(v1));
    assert(b.subrange(p + 8, e2) =~= b.subrange(p, e2).subrange(8, e2 - p));
    assert(enc_rows(v2).subrange(8, e2 - p) =~= cat_rows(v2));
    lemma_cat_rows_aligned(b, p + 8, e1, e2, v1, v2);
}

proof fn lemma_prefix_parts(b: Seq<u8>, p: int, e: int, x: Seq<u8>, y: Seq<u8>)
    requires
        0 <= p <= e <= b.len(),
        b.subrange(p, e) == x + y,
    ensures
        p + x.len() <= e,
        b.subrange(p, p + x.len()) == x,
        b.subrange(p + x.len(), e) == y,
{
    assert((x + y).len() == x.len() + y.len());
    assert(b.subrange(p, p + x.len() as int) =~= x) by {
        assert forall|i: int| 0 <= i < x.len() implies b.subrange(p, p + x.len() as int)[i]
            == x[i] by {
            assert(b.subrange(p, e)[i] == (x + y)[i]);
        }
    }
    assert(b.subrange(p + x.len(), e) =~= y) by {
        assert forall|i: int| 0 <= i < y.len() implies b.subrange(p + x.len(), e)[i] == y[i] by {
            assert(b.subrange(p + x.len() as int, e)[i] == b[p + x.len() + i]);
            assert(b.subrange(p, e)[x.len() + i] == b[p + x.len() + i]);
            assert((x + y)[x.len() + i] == y[i]);
        }
    }
}

/// Two table encodings at the same position are the same encoding: the five
/// fields align one after the other.
#[verifier::rlimit(50)]
proof fn lemma_enc_config_aligned(
    b: Seq<u8>,
    p: int,
    e1: int,
    e2: int,
    c1: GameConfigView,
    c2: GameConfigView,
)
    requires
        b.len() <= u64::MAX,
        0 <= p,
        p <= e1 <= b.len(),
        p <= e2 <= b.len(),
        b.subrange(p, e1) == enc_config(c1),
        b.subrange(p, e2) == enc_config(c2),
    ensures
        e1 == e2,
        c1 == c2,
{
    let a1 = enc_str(c1.name);
    let b1 = enc_str_seq(c1.cell_name);
    let k1 = enc_key_seq(c1.key_type);
    let d1 = enc_cell_seq(c1.cell_type);
    let f1 = enc_rows(c1.data);
    let a2 = enc_str(c2.name);
    let b2 = enc_str_seq(c2.cell_name);
    let k2 = enc_key_seq(c2.key_type);
    let d2 = enc_cell_seq(c2.cell_type);
    let f2 = enc_rows(c2.data);
    assert(enc_config(c1) =~= a1 + (b1 + (k1 + (d1 + f1))));
    assert(enc_config(c2) =~= a2 + (b2 + (k2 + (d2 + f2))));
    lemma_prefix_parts(b, p, e1, a1, b1 + (k1 + (d1 + f1)));
    lemma_prefix_parts(b, p, e2, a2, b2 + (k2 + (d2 + f2)));
    lemma_enc_str_aligned(b, p, p + a1.len(), p + a2.len(), c1.name, c2.name);
    let q = p + a1.len();
    lemma_prefix_parts(b, q, e1, b1, k1 + (d1 + f1));
    lemma_prefix_parts(b, q, e2, b2, k2 + (d2 + f2));
    lemma_enc_str_seq_aligned(b, q, q + b1.len(), q + b2.len(), c1.cell_name, c2.cell_name);
    let t = q + b1.len();
    lemma_prefix_parts(b, t, e1, k1, d1 + f1);
    lemma_prefix_parts(b, t, e2, k2, d2 + f2);
    lemma_enc_key_seq_aligned(b, t, t + k1.len(), t + k2.len(), c1.key_type, c2.key_type);
    let w = t + k1.len();
    lemma_prefix_parts(b, w, e1, d1, f1);
    lemma_prefix_parts(b, w, e2, d2, f2);
    lemma_enc_cell_seq_aligned(b, w, w + d1.len(), w + d2.len(), c1.cell_type, c2.cell_type);
    let x = w + d1.len();
    lemma_enc_rows_aligned(b, x, e1, e2, c1.data, c2.data);
    assert(c1 =~~= c2);
}

proof fn lemma_cat_configs_min(v: Seq<GameConfigView>)
    ensures
        cat_configs(v).len() >= v.len(),
    decreases v.len(),
{
    vstd::bytes::lemma_auto_spec_u64_to_from_le_bytes();
    if v.len() > 0 {
        lemma_cat_configs_min(v.drop_first());
    }
}

#[verifier::rlimit(50)]
proof fn lemma_cat_configs_aligned(
    b: Seq<u8>,
    p: int,
    e1: int,
    e2: int,
    v1: Seq<GameConfigView>,
    v2: Seq<GameConfigView>,
)
    requires
        b.len() <= u64::MAX,
        v1.len() == v2.len(),
        0 <= p,
        p <= e1 <= b.len(),
        p <= e2 <= b.len(),
        b.subrange(p, e1) == cat_configs(v1),
        b.subrange(p, e2) == cat_configs(v2),
    ensures
        e1 == e2,
        v1 == v2,
    decreases v1.len(),
{
    if v1.len() == 0 {
        assert(v1 =~= v2);
    } else {
        let a1 = enc_config(v1[0]);
        let a2 = enc_config(v2[0]);
        let q1 = p + a1.len();
        let q2 = p + a2.len();
        assert(cat_configs(v1) == a1 + cat_configs(v1.drop_first()));
        assert(cat_configs(v2) == a2 + cat_configs(v2.drop_first()));
        assert((a1 + cat_configs(v1.drop_first())).len() == a1.len() + cat_configs(v1.drop_first()).len());
        assert((a2 + cat_configs(v2.drop_first())).len() == a2.len() + cat_configs(v2.drop_first()).len());
        assert(e1 - p == a1.len() + cat_configs(v1.drop_first()).len());
        assert(e2 - p == a2.len() + cat_configs(v2.drop_first()).len());
        assert(b.subrange(p, q1) =~= b.subrange(p, e1).subrange(0, a1.len() as int));
        assert((a1 + cat_configs(v1.drop_first())).subrange(0, a1.len() as int) =~= a1);
        assert(b.subrange(p, q2) =~= b.subrange(p, e2).subrange(0, a2.len() as int));
        assert((a2 + cat_configs(v2.drop_first())).subrange(0, a2.len() as int) =~= a2);
        lemma_enc_config_aligned(b, p, q1, q2, v1[0], v2[0]);
        assert(b.subrange(q1, e1) =~= b.subrange(p, e1).subrange(a1.len() as int, e1 - p));
        assert((a1 + cat_configs(v1.drop_first())).subrange(a1.len() as int, e1 - p)
            =~= cat_configs(v1.drop_first()));
        assert(b.subrange(q2, e2) =~= b.subrange(p, e2).subrange(a2.len() as int, e2 - p));
        assert((a2 + cat_configs(v2.drop_first())).subrange(a2.len() as int, e2 - p)
            =~= cat_configs(v2.drop_first()));
        lemma_cat_configs_aligned(b, q1, e1, e2, v1.drop_first(), v2.drop_first());
        assert forall|i: int| 0 <= i < v1.len() implies v1[i] == v2[i] by {
            if i > 0 {
                assert(v1.drop_first()[i - 1] == v2.drop_first()[i - 1]);
            }
        }
        assert(v1 =~= v2);
    }
}

/// The encoding pins the dataset: one byte sequence is the encoding of at
/// most one dataset value.
#[verifier::rlimit(50)]
proof fn lemma_enc_game_configs_aligned(b: Seq<u8>, g1: GameConfigsView, g2: GameConfigsView)
    requires
        b.len() <= u64::MAX,
        b == enc_game_configs(g1),
        b == enc_game_configs(g2),
    ensures
        g1 == g2,
{
    vstd::bytes::lemma_auto_spec_u64_to_from_le_bytes();
    vstd::bytes::lemma_auto_spec_u128_to_from_le_bytes();
    let e: int = b.len() as int;
    assert(b.subrange(0, e) =~= b);
    let a1 = enc_str(g1.commit_id);
    let r1 = spec_u128_to_le_bytes(g1.create_mills) + spec_u64_to_le_bytes(g1.data.len() as u64)
        + cat_configs(g1.data);
    let a2 = enc_str(g2.commit_id);
    let r2 = spec_u128_to_le_bytes(g2.create_mills) + spec_u64_to_le_bytes(g2.data.len() as u64)
        + cat_configs(g2.data);
    assert(enc_game_configs(g1) =~= a1 + r1);
    assert(enc_game_configs(g2) =~= a2 + r2);
    let q1 = a1.len() as int;
    let q2 = a2.len() as int;
    assert(b.subrange(0, q1) =~= (a1 + r1).subrange(0, q1));
    assert((a1 + r1).subrange(0, q1) =~= a1);
    assert(b.subrange(0, q2) =~= (a2 + r2).subrange(0, q2));
    assert((a2 + r2).subrange(0, q2) =~= a2);
    lemma_enc_str_aligned(b, 0, q1, q2, g1.commit_id, g2.commit_id);
    assert(b.subrange(q1, e) =~= (a1 + r1).subrange(q1, e));
    assert((a1 + r1).subrange(q1, e) =~= r1);
    assert(b.subrange(q2, e) =~= (a2 + r2).subrange(q2, e));
    assert((a2 + r2).subrange(q2, e) =~= r2);
    assert(r1 == r2);
    assert(r1 =~= spec_u128_to_le_bytes(g1.create_mills) + (spec_u64_to_le_bytes(
        g1.data.len() as u64,
    ) + cat_configs(g1.data)));
    assert(r2 =~= spec_u128_to_le_bytes(g2.create_mills) + (spec_u64_to_le_bytes(
        g2.data.len() as u64,
    ) + cat_configs(g2.data)));
    assert(spec_u128_to_le_bytes(g1.create_mills).len() == 16);
    assert(spec_u128_to_le_bytes(g2.create_mills).len() == 16);
    lemma_concat_parts(
        spec_u128_to_le_bytes(g1.create_mills),
        spec_u64_to_le_bytes(g1.data.len() as u64) + cat_configs(g1.data),
        spec_u128_to_le_bytes(g2.create_mills),
        spec_u64_to_le_bytes(g2.data.len() as u64) + cat_configs(g2.data),
    );
    assert(g1.create_mills == g2.create_mills);
    lemma_concat_parts(
        spec_u64_to_le_bytes(g1.data.len() as u64),
        cat_configs(g1.data),
        spec_u64_to_le_bytes(g2.data.len() as u64),
        cat_configs(g2.data),
    );
    lemma_cat_configs_min(g1.data);
    lemma_cat_configs_min(g2.data);
    assert(g1.data.len() == g2.data.len());
    let t1 = q1 + 16 + 8;
    assert(b.subrange(t1, e) =~= r1.subrange(16int + 8, r1.len() as int));
    assert(r1.subrange(16int + 8, r1.len() as int) =~= cat_configs(g1.data));
    assert(b.subrange(t1, e) =~= r2.subrange(16int + 8, r2.len() as int));
    assert(r2.subrange(16int + 8, r2.len() as int) =~= cat_configs(g2.data));
    lemma_cat_configs_aligned(b, t1, e, e, g1.data, g2.data);
    assert(g1 =~~= g2);
}

/// An encoded string sits at `p..end` of `b`.
spec fn str_at(b: Seq<u8>, p: int, end: int, cs: Seq<char>) -> bool {
    p <= end <= b.len() && b.subrange(p, end) == enc_str(cs)
}

/// An encoded string sequence sits at `p..end` of `b`.
spec fn str_seq_at(b: Seq<u8>, p: int, end: int, v: Seq<Seq<char>>) -> bool {
    p <= end <= b.len() && b.subrange(p, end) == enc_str_seq(v)
}

/// An encoded tag sequence sits at `p..end` of `b`.
spec fn key_seq_at(b: Seq<u8>, p: int, end: int, v: Seq<KeyType>) -> bool {
    p <= end <= b.len() && b.subrange(p, end) == enc_key_seq(v)
}

/// An encoded cell-type sequence sits at `p..end` of `b`.
spec fn cell_seq_at(b: Seq<u8>, p: int, end: int, v: Seq<CellType>) -> bool {
    p <= end <= b.len() && b.subrange(p, end) == enc_cell_seq(v)
}

/// An encoded row block sits at `p..end` of `b`.
spec fn rows_at(b: Seq<u8>, p: int, end: int, v: Seq<Seq<Seq<char>>>) -> bool {
    p <= end <= b.len() && b.subrange(p, end) == enc_rows(v)
}

/// An encoded table sits at `p..end` of `b`.
spec fn config_at(b: Seq<u8>, p: int, end: int, c: GameConfigView) -> bool {
    p <= end <= b.len() && b.subrange(p, end) == enc_config(c)
}

fn read_u64(bytes: &[u8], pos: usize) -> (r: Result<(u64, usize), DecodeError>)
    requires
        pos <= bytes@.len(),
    ensures
        r matches Ok(p) ==> p.1 == pos + 8 && p.1 <= bytes@.len() && bytes@.subrange(
            pos as int,
            p.1 as int,
        ) == spec_u64_to_le_bytes(p.0),
        r is Err ==> bytes@.len() < pos + 8,
{
    if bytes.len() - pos < 8 {
        return Err(DecodeError::Truncated);
    }
    let piece = vstd::slice::slice_subrange(bytes, pos, pos + 8);
    let x = vstd::bytes::u64_from_le_bytes(piece);
    proof {
        vstd::bytes::lemma_auto_spec_u64_to_from_le_bytes();
    }
    Ok((x, pos + 8))
}

fn read_u32(bytes: &[u8], pos: usize) -> (r: Result<(u32, usize), DecodeError>)
    requires
        pos <= bytes@.len(),
    ensures
        r matches Ok(p) ==> p.1 == pos + 4 && p.1 <= bytes@.len() && bytes@.subrange(
            pos as int,
            p.1 as int,
        ) == spec_u32_to_le_bytes(p.0),
        r is Err ==> bytes@.len() < pos + 4,
{
    if bytes.len() - pos < 4 {
        return Err(DecodeError::Truncated);
    }
    let piece = vstd::slice::slice_subrange(bytes, pos, pos + 4);
    let x = vstd::bytes::u32_from_le_bytes(piece);
    proof {
        vstd::bytes::lemma_auto_spec_u32_to_from_le_bytes();
    }
    Ok((x, pos + 4))
}

fn read_u128(bytes: &[u8], pos: usize) -> (r: Result<(u128, usize), DecodeError>)
    requires
        pos <= bytes@.len(),
    ensures
        r matches Ok(p) ==> p.1 == pos + 16 && p.1 <= bytes@.len() && bytes@.subrange(
            pos as int,
            p.1 as int,
        ) == spec_u128_to_le_bytes(p.0),
        r is Err ==> bytes@.len() < pos + 16,
{
    if bytes.len() - pos < 16 {
        return Err(DecodeError::Truncated);
    }
    let piece = vstd::slice::slice_subrange(bytes, pos, pos + 16);
    let x = vstd::bytes::u128_from_le_bytes(piece);
    proof {
        vstd::bytes::lemma_auto_spec_u128_to_from_le_bytes();
    }
    Ok((x, pos + 16))
}

fn read_str(bytes: &[u8], pos: usize) -> (r: Result<(String, usize), DecodeError>)
    requires
        pos <= bytes@.len(),
    ensures
        r matches Ok(p) ==> pos <= p.1 <= bytes@.len() && bytes@.subrange(pos as int, p.1 as int)
            == enc_str(p.0@),
        r is Err ==> forall|cs: Seq<char>, end: int|
            !#[trigger] str_at(bytes@, pos as int, end, cs),
{
    let blen = bytes.len();
    proof {
        vstd::bytes::lemma_auto_spec_u64_to_from_le_bytes();
    }
    let (n, body) = match read_u64(bytes, pos) {
        Ok(p) => p,
        Err(e) => {
            proof {
                assert forall|cs: Seq<char>, end: int| !#[trigger] str_at(
                    bytes@,
                    pos as int,
                    end,
                    cs,
                ) by {
                    if str_at(bytes@, pos as int, end, cs) {
                        assert(spec_u64_to_le_bytes(encode_utf8(cs).len() as u64).len() == 8);
                        assert(enc_str(cs).len() >= 8);
                        assert(end - pos >= 8);
                    }
                }
            }
            return Err(e);
        },
    };
    if n > (bytes.len() - body) as u64 {
        proof {
            assert forall|cs: Seq<char>, end: int| !#[trigger] str_at(
                bytes@,
                pos as int,
                end,
                cs,
            ) by {
                if str_at(bytes@, pos as int, end, cs) {
                    assert(spec_u64_to_le_bytes(encode_utf8(cs).len() as u64).len() == 8);
                    lemma_prefix_parts(
                        bytes@,
                        pos as int,
                        end,
                        spec_u64_to_le_bytes(encode_utf8(cs).len() as u64),
                        encode_utf8(cs),
                    );
                    assert(encode_utf8(cs).len() <= u64::MAX);
                    assert(n == encode_utf8(cs).len());
                    assert(end == body + n);
                }
            }
        }
        return Err(DecodeError::Truncated);
    }
    let end = body + (n as usize);
    let piece = vstd::slice::slice_subrange(bytes, body, end);
    let s = match bytes_to_str(piece) {
        Some(s) => s,
        None => {
            proof {
                assert forall|cs: Seq<char>, end2: int| !#[trigger] str_at(
                    bytes@,
                    pos as int,
                    end2,
                    cs,
                ) by {
                    if str_at(bytes@, pos as int, end2, cs) {
                        assert(spec_u64_to_le_bytes(encode_utf8(cs).len() as u64).len() == 8);
                        lemma_prefix_parts(
                            bytes@,
                            pos as int,
                            end2,
                            spec_u64_to_le_bytes(encode_utf8(cs).len() as u64),
                            encode_utf8(cs),
                        );
                        assert(encode_utf8(cs).len() <= u64::MAX);
                        assert(n == encode_utf8(cs).len());
                        assert(end2 == end);
                        assert(bytes@.subrange(body as int, end as int) == encode_utf8(cs));
                        vstd::utf8::encode_utf8_valid_utf8(cs);
                    }
                }
            }
            return Err(DecodeError::Invalid);
        },
    };
    proof {
        assert(bytes@.subrange(pos as int, end as int) =~= bytes@.subrange(pos as int, body as int)
            + bytes@.subrange(body as int, end as int));
        assert(encode_utf8(s@).len() == n);
        assert(bytes@.subrange(pos as int, end as int) =~= enc_str(s@));
    }
    Ok((String::from_str(s), end))
}

proof fn lemma_cat_strs_snoc(v: Seq<Seq<char>>, s: Seq<char>)
    ensures
        cat_strs(v.push(s)) == cat_strs(v) + enc_str(s),
    decreases v.len(),
{
    if v.len() == 0 {
        assert(v.push(s)[0] == s);
        assert(v.push(s).drop_first() =~= Seq::<Seq<char>>::empty());
        assert(enc_str(s) + cat_strs(Seq::<Seq<char>>::empty()) =~= enc_str(s));
        assert(cat_strs(v) + enc_str(s) =~= enc_str(s));
    } else {
        assert(v.push(s)[0] == v[0]);
        assert(v.push(s).drop_first() =~= v.drop_first().push(s));
        lemma_cat_strs_snoc(v.drop_first(), s);
        assert(enc_str(v[0]) + (cat_strs(v.drop_first()) + enc_str(s)) =~= (enc_str(v[0])
            + cat_strs(v.drop_first())) + enc_str(s));
    }
}

proof fn lemma_cat_keys_snoc(v: Seq<KeyType>, k: KeyType)
    ensures
        cat_keys(v.push(k)) == cat_keys(v) + spec_u32_to_le_bytes(key_code(k)),
    decreases v.len(),
{
    if v.len() == 0 {
        assert(v.push(k)[0] == k);
        assert(v.push(k).drop_first() =~= Seq::<KeyType>::empty());
        assert(spec_u32_to_le_bytes(key_code(k)) + cat_keys(Seq::<KeyType>::empty())
            =~= spec_u32_to_le_bytes(key_code(k)));
        assert(cat_keys(v) + spec_u32_to_le_bytes(key_code(k)) =~= spec_u32_to_le_bytes(
            key_code(k),
        ));
    } else {
        assert(v.push(k)[0] == v[0]);
        assert(v.push(k).drop_first() =~= v.drop_first().push(k));
        lemma_cat_keys_snoc(v.drop_first(), k);
        assert(spec_u32_to_le_bytes(key_code(v[0])) + (cat_keys(v.drop_first())
            + spec_u32_to_le_bytes(key_code(k))) =~= (spec_u32_to_le_bytes(key_code(v[0]))
            + cat_keys(v.drop_first())) + spec_u32_to_le_bytes(key_code(k)));
    }
}

proof fn lemma_cat_cells_snoc(v: Seq<CellType>, t: CellType)
    ensures
        cat_cells(v.push(t)) == cat_cells(v) + spec_u32_to_le_bytes(cell_code(t)),
    decreases v.len(),
{
    if v.len() == 0 {
        assert(v.push(t)[0] == t);
        assert(v.push(t).drop_first() =~= Seq::<CellType>::empty());
        assert(spec_u32_to_le_bytes(cell_code(t)) + cat_cells(Seq::<CellType>::empty())
            =~= spec_u32_to_le_bytes(cell_code(t)));
        assert(cat_cells(v) + spec_u32_to_le_bytes(cell_code(t)) =~= spec_u32_to_le_bytes(
            cell_code(t),
        ));
    } else {
        assert(v.push(t)[0] == v[0]);
        assert(v.push(t).drop_first() =~= v.drop_first().push(t));
        lemma_cat_cells_snoc(v.drop_first(), t);
        assert(spec_u32_to_le_bytes(cell_code(v[0])) + (cat_cells(v.drop_first())
            + spec_u32_to_le_bytes(cell_code(t))) =~= (spec_u32_to_le_bytes(cell_code(v[0]))
            + cat_cells(v.drop_first())) + spec_u32_to_le_bytes(cell_code(t)));
    }
}

proof fn lemma_cat_rows_snoc(v: Seq<Seq<Seq<char>>>, row: Seq<Seq<char>>)
    ensures
        cat_rows(v.push(row)) == cat_rows(v) + enc_str_seq(row),
    decreases v.len(),
{
    if v.len() == 0 {
        assert(v.push(row)[0] == row);
        assert(v.push(row).drop_first() =~= Seq::<Seq<Seq<char>>>::empty());
        assert(enc_str_seq(row) + cat_rows(Seq::<Seq<Seq<char>>>::empty()) =~= enc_str_seq(row));
        assert(cat_rows(v) + enc_str_seq(row) =~= enc_str_seq(row));
    } else {
        assert(v.push(row)[0] == v[0]);
        assert(v.push(row).drop_first() =~= v.drop_first().push(row));
        lemma_cat_rows_snoc(v.drop_first(), row);
        assert(enc_str_seq(v[0]) + (cat_rows(v.drop_first()) + enc_str_seq(row)) =~= (enc_str_seq(
            v[0],
        ) + cat_rows(v.drop_first())) + enc_str_seq(row));
    }
}

proof fn lemma_cat_configs_snoc(v: Seq<GameConfigView>, c: GameConfigView)
    ensures
        cat_configs(v.push(c)) == cat_configs(v) + enc_config(c),
    decreases v.len(),
{
    if v.len() == 0 {
        assert(v.push(c)[0] == c);
        assert(v.push(c).drop_first() =~= Seq::<GameConfigView>::empty());
        assert(enc_config(c) + cat_configs(Seq::<GameConfigView>::empty()) =~= enc_config(c));
        assert(cat_configs(v) + enc_config(c) =~= enc_config(c));
    } else {
        assert(v.push(c)[0] == v[0]);
        assert(v.push(c).drop_first() =~= v.drop_first().push(c));
        lemma_cat_configs_snoc(v.drop_first(), c);
        assert(enc_config(v[0]) + (cat_configs(v.drop_first()) + enc_config(c)) =~= (enc_config(
            v[0],
        ) + cat_configs(v.drop_first())) + enc_config(c));
    }
}

fn read_str_vec(bytes: &[u8], pos: usize) -> (r: Result<(Vec<String>, usize), DecodeError>)
    requires
        pos <= bytes@.len(),
    ensures
        r matches Ok(p) ==> pos <= p.1 <= bytes@.len() && bytes@.subrange(pos as int, p.1 as int)
            == enc_str_seq(p.0.deep_view()),
        r is Err ==> forall|v: Seq<Seq<char>>, end: int|
            !#[trigger] str_seq_at(bytes@, pos as int, end, v),
{
    let blen = bytes.len();
    let ghost has_w = exists|v: Seq<Seq<char>>, e: int| str_seq_at(bytes@, pos as int, e, v);
    let ghost w: (Seq<Seq<char>>, int) = if has_w {
        choose|v: Seq<Seq<char>>, e: int| str_seq_at(bytes@, pos as int, e, v)
    } else {
        arbitrary()
    };
    proof {
        vstd::bytes::lemma_auto_spec_u64_to_from_le_bytes();
        if has_w {
            assert(spec_u64_to_le_bytes(w.0.len() as u64).len() == 8);
            lemma_cat_strs_min(w.0);
        }
    }
    let (n, body) = match read_u64(bytes, pos) {
        Ok(p) => p,
        Err(e) => {
            proof {
                if has_w {
                    assert(enc_str_seq(w.0).len() >= 8);
                    assert(false);
                }
                assert forall|v: Seq<Seq<char>>, end: int| !#[trigger] str_seq_at(
                    bytes@,
                    pos as int,
                    end,
                    v,
                ) by {
                    if str_seq_at(bytes@, pos as int, end, v) {
                        assert(has_w);
                    }
                }
            }
            return Err(e);
        },
    };
    proof {
        if has_w {
            lemma_prefix_parts(
                bytes@,
                pos as int,
                w.1,
                spec_u64_to_le_bytes(w.0.len() as u64),
                cat_strs(w.0),
            );
            assert(w.0.len() <= u64::MAX);
            assert(n == w.0.len());
            assert(w.0.skip(0) =~= w.0);
        }
    }
    let mut out: Vec<String> = Vec::new();
    let mut cur: usize = body;
    let mut i: u64 = 0;
    proof {
        assert(bytes@.subrange(body as int, body as int) =~= cat_strs(out.deep_view()));
    }
    while i < n
        invariant
            i <= n,
            body <= cur <= bytes@.len(),
            bytes@.len() <= u64::MAX,
            out@.len() == i,
            bytes@.subrange(pos as int, body as int) == spec_u64_to_le_bytes(n),
            bytes@.subrange(body as int, cur as int) == cat_strs(out.deep_view()),
            has_w == exists|v: Seq<Seq<char>>, e: int| str_seq_at(bytes@, pos as int, e, v),
            has_w ==> i <= w.0.len() && n == w.0.len() && cur <= w.1 <= bytes@.len()
                && bytes@.subrange(cur as int, w.1) == cat_strs(w.0.skip(i as int)),
        decreases n - i,
    {
        let ghost before = out.deep_view();
        let ghost prev = cur;
        proof {
            if has_w {
                assert(w.0.skip(i as int)[0] == w.0[i as int]);
                assert(w.0.skip(i as int).drop_first() =~= w.0.skip(i as int + 1));
                assert(cat_strs(w.0.skip(i as int)) == enc_str(w.0[i as int]) + cat_strs(
                    w.0.skip(i as int + 1),
                ));
                lemma_prefix_parts(
                    bytes@,
                    cur as int,
                    w.1,
                    enc_str(w.0[i as int]),
                    cat_strs(w.0.skip(i as int + 1)),
                );
                assert(str_at(
                    bytes@,
                    cur as int,
                    cur + enc_str(w.0[i as int]).len(),
                    w.0[i as int],
                ));
            }
        }
        let (s, next) = match read_str(bytes, cur) {
            Ok(p) => p,
            Err(e) => {
                proof {
                    if has_w {
                        assert(false);
                    }
                    assert forall|v: Seq<Seq<char>>, end: int| !#[trigger] str_seq_at(
                        bytes@,
                        pos as int,
                        end,
                        v,
                    ) by {
                        if str_seq_at(bytes@, pos as int, end, v) {
                            assert(has_w);
                        }
                    }
                }
                return Err(e);
            },
        };
        proof {
            if has_w {
                lemma_enc_str_aligned(
                    bytes@,
                    cur as int,
                    next as int,
                    cur + enc_str(w.0[i as int]).len(),
                    s@,
                    w.0[i as int],
                );
            }
            lemma_cat_strs_snoc(before, s@);
            assert(bytes@.subrange(body as int, next as int) =~= bytes@.subrange(
                body as int,
                prev as int,
            ) + bytes@.subrange(prev as int, next as int));
        }
        out.push(s);
        cur = next;
        proof {
            assert(out.deep_view() =~= before.push(out@[i as int]@));
        }
        i = i + 1;
    }
    proof {
        assert(out.deep_view().len() == out@.len());
        assert(bytes@.subrange(pos as int, cur as int) =~= bytes@.subrange(pos as int, body as int)
            + bytes@.subrange(body as int, cur as int));
        assert(bytes@.subrange(pos as int, cur as int) =~= enc_str_seq(out.deep_view()));
    }
    Ok((out, cur))
}

fn key_of_code(code: u32) -> (r: Option<KeyType>)
    ensures
        r matches Some(k) ==> key_code(k) == code,
        r is None ==> code > 5,
{
    match code {
        0 => Some(KeyType::AllKey),
        1 => Some(KeyType::All),
        2 => Some(KeyType::Client),
        3 => Some(KeyType::ClientKey),
        4 => Some(KeyType::Server),
        5 => Some(KeyType::ServerKey),
        _ => None,
    }
}

fn cell_of_code(code: u32) -> (r: Option<CellType>)
    ensures
        r matches Some(t) ==> cell_code(t) == code,
        r is None ==> code > 20,
{
    match code {
        0 => Some(CellType::UInt),
        1 => Some(CellType::Int),
        2 => Some(CellType::Long),
        3 => Some(CellType::String),
        4 => Some(CellType::Bool),
        5 => Some(CellType::Vector3ArrayInt),
        6 => Some(CellType::Vector3Int),
        7 => Some(CellType::Vector2Int),
        8 => Some(CellType::Vector3UInt),
        9 => Some(CellType::Vector2UInt),
        10 => Some(CellType::Vector2ArrayInt),
        11 => Some(CellType::ArrayInt),
        12 => Some(CellType::ArrayUInt),
        13 => Some(CellType::DictionaryStringFloat),
        14 => Some(CellType::DictionaryStringInt),
        15 => Some(CellType::Lang),
        16 => Some(CellType::Float),
        17 => Some(CellType::Double),
        18 => Some(CellType::Vector2Float),
        19 => Some(CellType::Vector3Float),
        20 => Some(CellType::Vector2String),
        _ => None,
    }
}

fn read_key_vec(bytes: &[u8], pos: usize) -> (r: Result<(Vec<KeyType>, usize), DecodeError>)
    requires
        pos <= bytes@.len(),
    ensures
        r matches Ok(p) ==> pos <= p.1 <= bytes@.len() && bytes@.subrange(pos as int, p.1 as int)
            == enc_key_seq(p.0@),
        r is Err ==> forall|v: Seq<KeyType>, end: int| !#[trigger] key_seq_at(bytes@, pos as int, end, v),
{
    let blen = bytes.len();
    let ghost has_w = exists|v: Seq<KeyType>, e: int| key_seq_at(bytes@, pos as int, e, v);
    let ghost w: (Seq<KeyType>, int) = if has_w {
        choose|v: Seq<KeyType>, e: int| key_seq_at(bytes@, pos as int, e, v)
    } else {
        arbitrary()
    };
    proof {
        vstd::bytes::lemma_auto_spec_u64_to_from_le_bytes();
        vstd::bytes::lemma_auto_spec_u32_to_from_le_bytes();
        if has_w {
            assert(spec_u64_to_le_bytes(w.0.len() as u64).len() == 8);
            lemma_cat_keys_min(w.0);
        }
    }
    let (n, body) = match read_u64(bytes, pos) {
        Ok(p) => p,
        Err(e) => {
            proof {
                if has_w {
                    assert(enc_key_seq(w.0).len() >= 8);
                    assert(false);
                }
                assert forall|v: Seq<KeyType>, end: int| !#[trigger] key_seq_at(
                    bytes@,
                    pos as int,
                    end,
                    v,
                ) by {
                    if key_seq_at(bytes@, pos as int, end, v) {
                        assert(has_w);
                    }
                }
            }
            return Err(e);
        },
    };
    proof {
        if has_w {
            lemma_prefix_parts(
                bytes@,
                pos as int,
                w.1,
                spec_u64_to_le_bytes(w.0.len() as u64),
                cat_keys(w.0),
            );
            assert(w.0.len() <= u64::MAX);
            assert(n == w.0.len());
            assert(w.0.skip(0) =~= w.0);
        }
    }
    let mut out: Vec<KeyType> = Vec::new();
    let mut cur: usize = body;
    let mut i: u64 = 0;
    proof {
        assert(bytes@.subrange(body as int, body as int) =~= cat_keys(out@));
    }
    while i < n
        invariant
            i <= n,
            body <= cur <= bytes@.len(),
            bytes@.len() <= u64::MAX,
            out@.len() == i,
            bytes@.subrange(pos as int, body as int) == spec_u64_to_le_bytes(n),
            bytes@.subrange(body as int, cur as int) == cat_keys(out@),
            has_w == exists|v: Seq<KeyType>, e: int| key_seq_at(bytes@, pos as int, e, v),
            has_w ==> i <= w.0.len() && n == w.0.len() && cur <= w.1 <= bytes@.len()
                && bytes@.subrange(cur as int, w.1) == cat_keys(w.0.skip(i as int)),
        decreases n - i,
    {
        let ghost before = out@;
        let ghost prev = cur;
        proof {
            vstd::bytes::lemma_auto_spec_u32_to_from_le_bytes();
            if has_w {
                assert(w.0.skip(i as int)[0] == w.0[i as int]);
                assert(w.0.skip(i as int).drop_first() =~= w.0.skip(i as int + 1));
                assert(cat_keys(w.0.skip(i as int)) == spec_u32_to_le_bytes(key_code(w.0[i as int]))
                    + cat_keys(w.0.skip(i as int + 1)));
                assert(spec_u32_to_le_bytes(key_code(w.0[i as int])).len() == 4);
                lemma_prefix_parts(
                    bytes@,
                    cur as int,
                    w.1,
                    spec_u32_to_le_bytes(key_code(w.0[i as int])),
                    cat_keys(w.0.skip(i as int + 1)),
                );
            }
        }
        let (code, next) = match read_u32(bytes, cur) {
            Ok(p) => p,
            Err(e) => {
                proof {
                    if has_w {
                        assert(false);
                    }
                    assert forall|v: Seq<KeyType>, end: int| !#[trigger] key_seq_at(
                        bytes@,
                        pos as int,
                        end,
                        v,
                    ) by {
                        if key_seq_at(bytes@, pos as int, end, v) {
                            assert(has_w);
                        }
                    }
                }
                return Err(e);
            },
        };
        proof {
            if has_w {
                assert(code == key_code(w.0[i as int]));
                assert(code <= 5);
            }
        }
        let k = match key_of_code(code) {
            Some(k) => k,
            None => {
                proof {
                    if has_w {
                        assert(false);
                    }
                    assert forall|v: Seq<KeyType>, end: int| !#[trigger] key_seq_at(
                        bytes@,
                        pos as int,
                        end,
                        v,
                    ) by {
                        if key_seq_at(bytes@, pos as int, end, v) {
                            assert(has_w);
                        }
                    }
                }
                return Err(DecodeError::Invalid);
            },
        };
        proof {
            lemma_cat_keys_snoc(before, k);
            assert(bytes@.subrange(body as int, next as int) =~= bytes@.subrange(
                body as int,
                prev as int,
            ) + bytes@.subrange(prev as int, next as int));
        }
        out.push(k);
        cur = next;
        i = i + 1;
    }
    proof {
        assert(bytes@.subrange(pos as int, cur as int) =~= bytes@.subrange(pos as int, body as int)
            + bytes@.subrange(body as int, cur as int));
        assert(bytes@.subrange(pos as int, cur as int) =~= enc_key_seq(out@));
    }
    Ok((out, cur))
}

fn read_cell_vec(bytes: &[u8], pos: usize) -> (r: Result<(Vec<CellType>, usize), DecodeError>)
    requires
        pos <= bytes@.len(),
    ensures
        r matches Ok(p) ==> pos <= p.1 <= bytes@.len() && bytes@.subrange(pos as int, p.1 as int)
            == enc_cell_seq(p.0@),
        r is Err ==> forall|v: Seq<CellType>, end: int| !#[trigger] cell_seq_at(bytes@, pos as int, end, v),
{
    let blen = bytes.len();
    let ghost has_w = exists|v: Seq<CellType>, e: int| cell_seq_at(bytes@, pos as int, e, v);
    let ghost w: (Seq<CellType>, int) = if has_w {
        choose|v: Seq<CellType>, e: int| cell_seq_at(bytes@, pos as int, e, v)
    } else {
        arbitrary()
    };
    proof {
        vstd::bytes::lemma_auto_spec_u64_to_from_le_bytes();
        vstd::bytes::lemma_auto_spec_u32_to_from_le_bytes();
        if has_w {
            assert(spec_u64_to_le_bytes(w.0.len() as u64).len() == 8);
            lemma_cat_cells_min(w.0);
        }
    }
    let (n, body) = match read_u64(bytes, pos) {
        Ok(p) => p,
        Err(e) => {
            proof {
                if has_w {
                    assert(enc_cell_seq(w.0).len() >= 8);
                    assert(false);
                }
                assert forall|v: Seq<CellType>, end: int| !#[trigger] cell_seq_at(
                    bytes@,
                    pos as int,
                    end,
                    v,
                ) by {
                    if cell_seq_at(bytes@, pos as int, end, v) {
                        assert(has_w);
                    }
                }
            }
            return Err(e);
        },
    };
    proof {
        if has_w {
            lemma_prefix_parts(
                bytes@,
                pos as int,
                w.1,
                spec_u64_to_le_bytes(w.0.len() as u64),
                cat_cells(w.0),
            );
            assert(w.0.len() <= u64::MAX);
            assert(n == w.0.len());
            assert(w.0.skip(0) =~= w.0);
        }
    }
    let mut out: Vec<CellType> = Vec::new();
    let mut cur: usize = body;
    let mut i: u64 = 0;
    proof {
        assert(bytes@.subrange(body as int, body as int) =~= cat_cells(out@));
    }
    while i < n
        invariant
            i <= n,
            body <= cur <= bytes@.len(),
            bytes@.len() <= u64::MAX,
            out@.len() == i,
            bytes@.subrange(pos as int, body as int) == spec_u64_to_le_bytes(n),
            bytes@.subrange(body as int, cur as int) == cat_cells(out@),
            has_w == exists|v: Seq<CellType>, e: int| cell_seq_at(bytes@, pos as int, e, v),
            has_w ==> i <= w.0.len() && n == w.0.len() && cur <= w.1 <= bytes@.len()
                && bytes@.subrange(cur as int, w.1) == cat_cells(w.0.skip(i as int)),
        decreases n - i,
    {
        let ghost before = out@;
        let ghost prev = cur;
        proof {
            vstd::bytes::lemma_auto_spec_u32_to_from_le_bytes();
            if has_w {
                assert(w.0.skip(i as int)[0] == w.0[i as int]);
                assert(w.0.skip(i as int).drop_first() =~= w.0.skip(i as int + 1));
                assert(cat_cells(w.0.skip(i as int)) == spec_u32_to_le_bytes(cell_code(w.0[i as int]))
                    + cat_cells(w.0.skip(i as int + 1)));
                assert(spec_u32_to_le_bytes(cell_code(w.0[i as int])).len() == 4);
                lemma_prefix_parts(
                    bytes@,
                    cur as int,
                    w.1,
                    spec_u32_to_le_bytes(cell_code(w.0[i as int])),
                    cat_cells(w.0.skip(i as int + 1)),
                );
            }
        }
        let (code, next) = match read_u32(bytes, cur) {
            Ok(p) => p,
            Err(e) => {
                proof {
                    if has_w {
                        assert(false);
                    }
                    assert forall|v: Seq<CellType>, end: int| !#[trigger] cell_seq_at(
                        bytes@,
                        pos as int,
                        end,
                        v,
                    ) by {
                        if cell_seq_at(bytes@, pos as int, end, v) {
                            assert(has_w);
                        }
                    }
                }
                return Err(e);
            },
        };
        proof {
            if has_w {
                assert(code == cell_code(w.0[i as int]));
                assert(code <= 20);
            }
        }
        let k = match cell_of_code(code) {
            Some(k) => k,
            None => {
                proof {
                    if has_w {
                        assert(false);
                    }
                    assert forall|v: Seq<CellType>, end: int| !#[trigger] cell_seq_at(
                        bytes@,
                        pos as int,
                        end,
                        v,
                    ) by {
                        if cell_seq_at(bytes@, pos as int, end, v) {
                            assert(has_w);
                        }
                    }
                }
                return Err(DecodeError::Invalid);
            },
        };
        proof {
            lemma_cat_cells_snoc(before, k);
            assert(bytes@.subrange(body as int, next as int) =~= bytes@.subrange(
                body as int,
                prev as int,
            ) + bytes@.subrange(prev as int, next as int));
        }
        out.push(k);
        cur = next;
        i = i + 1;
    }
    proof {
        assert(bytes@.subrange(pos as int, cur as int) =~= bytes@.subrange(pos as int, body as int)
            + bytes@.subrange(body as int, cur as int));
        assert(bytes@.subrange(pos as int, cur as int) =~= enc_cell_seq(out@));
    }
    Ok((out, cur))
}

fn read_rows(bytes: &[u8], pos: usize) -> (r: Result<(Vec<Vec<String>>, usize), DecodeError>)
    requires
        pos <= bytes@.len(),
    ensures
        r matches Ok(p) ==> pos <= p.1 <= bytes@.len() && bytes@.subrange(pos as int, p.1 as int)
            == enc_rows(p.0.deep_view()),
        r is Err ==> forall|v: Seq<Seq<Seq<char>>>, end: int|
            !#[trigger] rows_at(bytes@, pos as int, end, v),
{
    let blen = bytes.len();
    let ghost has_w = exists|v: Seq<Seq<Seq<char>>>, e: int| rows_at(bytes@, pos as int, e, v);
    let ghost w: (Seq<Seq<Seq<char>>>, int) = if has_w {
        choose|v: Seq<Seq<Seq<char>>>, e: int| rows_at(bytes@, pos as int, e, v)
    } else {
        arbitrary()
    };
    proof {
        vstd::bytes::lemma_auto_spec_u64_to_from_le_bytes();
        if has_w {
            assert(spec_u64_to_le_bytes(w.0.len() as u64).len() == 8);
            lemma_cat_rows_min(w.0);
        }
    }
    let (n, body) = match read_u64(bytes, pos) {
        Ok(p) => p,
        Err(e) => {
            proof {
                if has_w {
                    assert(enc_rows(w.0).len() >= 8);
                    assert(false);
                }
                assert forall|v: Seq<Seq<Seq<char>>>, end: int| !#[trigger] rows_at(
                    bytes@,
                    pos as int,
                    end,
                    v,
                ) by {
                    if rows_at(bytes@, pos as int, end, v) {
                        assert(has_w);
                    }
                }
            }
            return Err(e);
        },
    };
    proof {
        if has_w {
            lemma_prefix_parts(
                bytes@,
                pos as int,
                w.1,
                spec_u64_to_le_bytes(w.0.len() as u64),
                cat_rows(w.0),
            );
            assert(w.0.len() <= u64::MAX);
            assert(n == w.0.len());
            assert(w.0.skip(0) =~= w.0);
        }
    }
    let mut out: Vec<Vec<String>> = Vec::new();
    let mut cur: usize = body;
    let mut i: u64 = 0;
    proof {
        assert(bytes@.subrange(body as int, body as int) =~= cat_rows(out.deep_view()));
    }
    while i < n
        invariant
            i <= n,
            body <= cur <= bytes@.len(),
            bytes@.len() <= u64::MAX,
            out@.len() == i,
            bytes@.subrange(pos as int, body as int) == spec_u64_to_le_bytes(n),
            bytes@.subrange(body as int, cur as int) == cat_rows(out.deep_view()),
            has_w == exists|v: Seq<Seq<Seq<char>>>, e: int| rows_at(bytes@, pos as int, e, v),
            has_w ==> i <= w.0.len() && n == w.0.len() && cur <= w.1 <= bytes@.len()
                && bytes@.subrange(cur as int, w.1) == cat_rows(w.0.skip(i as int)),
        decreases n - i,
    {
        let ghost before = out.deep_view();
        let ghost prev = cur;
        proof {
            if has_w {
                assert(w.0.skip(i as int)[0] == w.0[i as int]);
                assert(w.0.skip(i as int).drop_first() =~= w.0.skip(i as int + 1));
                assert(cat_rows(w.0.skip(i as int)) == enc_str_seq(w.0[i as int]) + cat_rows(
                    w.0.skip(i as int + 1),
                ));
                lemma_prefix_parts(
                    bytes@,
                    cur as int,
                    w.1,
                    enc_str_seq(w.0[i as int]),
                    cat_rows(w.0.skip(i as int + 1)),
                );
                assert(str_seq_at(
                    bytes@,
                    cur as int,
                    cur + enc_str_seq(w.0[i as int]).len(),
                    w.0[i as int],
                ));
            }
        }
        let (row, next) = match read_str_vec(bytes, cur) {
            Ok(p) => p,
            Err(e) => {
                proof {
                    if has_w {
                        assert(false);
                    }
                    assert forall|v: Seq<Seq<Seq<char>>>, end: int| !#[trigger] rows_at(
                        bytes@,
                        pos as int,
                        end,
                        v,
                    ) by {
                        if rows_at(bytes@, pos as int, end, v) {
                            assert(has_w);
                        }
                    }
                }
                return Err(e);
            },
        };
        proof {
            if has_w {
                lemma_enc_str_seq_aligned(
                    bytes@,
                    cur as int,
                    next as int,
                    cur + enc_str_seq(w.0[i as int]).len(),
                    row.deep_view(),
                    w.0[i as int],
                );
            }
            lemma_cat_rows_snoc(before, row.deep_view());
            assert(bytes@.subrange(body as int, next as int) =~= bytes@.subrange(
                body as int,
                prev as int,
            ) + bytes@.subrange(prev as int, next as int));
        }
        out.push(row);
        cur = next;
        proof {
            assert(out.deep_view() =~= before.push(out@[i as int].deep_view()));
        }
        i = i + 1;
    }
    proof {
        assert(bytes@.subrange(pos as int, cur as int) =~= bytes@.subrange(pos as int, body as int)
            + bytes@.subrange(body as int, cur as int));
        assert(bytes@.subrange(pos as int, cur as int) =~= enc_rows(out.deep_view()));
    }
    Ok((out, cur))
}

fn read_config(bytes: &[u8], pos: usize) -> (r: Result<(GameConfig, usize), DecodeError>)
    requires
        pos <= bytes@.len(),
    ensures
        r matches Ok(p) ==> pos <= p.1 <= bytes@.len() && bytes@.subrange(pos as int, p.1 as int)
            == enc_config(p.0@),
        r is Err ==> forall|c: GameConfigView, end: int|
            !#[trigger] config_at(bytes@, pos as int, end, c),
{
    let blen = bytes.len();
    let ghost has_w = exists|c: GameConfigView, e: int| config_at(bytes@, pos as int, e, c);
    let ghost w: (GameConfigView, int) = if has_w {
        choose|c: GameConfigView, e: int| config_at(bytes@, pos as int, e, c)
    } else {
        arbitrary()
    };
    let ghost q1: int = pos + enc_str(w.0.name).len();
    let ghost q2: int = q1 + enc_str_seq(w.0.cell_name).len();
    let ghost q3: int = q2 + enc_key_seq(w.0.key_type).len();
    let ghost q4: int = q3 + enc_cell_seq(w.0.cell_type).len();
    proof {
        if has_w {
            let c = w.0;
            let e = w.1;
            assert(enc_config(c) =~= enc_str(c.name) + (enc_str_seq(c.cell_name) + (enc_key_seq(
                c.key_type,
            ) + (enc_cell_seq(c.cell_type) + enc_rows(c.data)))));
            lemma_prefix_parts(
                bytes@,
                pos as int,
                e,
                enc_str(c.name),
                enc_str_seq(c.cell_name) + (enc_key_seq(c.key_type) + (enc_cell_seq(c.cell_type)
                    + enc_rows(c.data))),
            );
            lemma_prefix_parts(
                bytes@,
                q1,
                e,
                enc_str_seq(c.cell_name),
                enc_key_seq(c.key_type) + (enc_cell_seq(c.cell_type) + enc_rows(c.data)),
            );
            lemma_prefix_parts(
                bytes@,
                q2,
                e,
                enc_key_seq(c.key_type),
                enc_cell_seq(c.cell_type) + enc_rows(c.data),
            );
            lemma_prefix_parts(bytes@, q3, e, enc_cell_seq(c.cell_type), enc_rows(c.data));
            assert(str_at(bytes@, pos as int, q1, c.name));
            assert(str_seq_at(bytes@, q1, q2, c.cell_name));
            assert(key_seq_at(bytes@, q2, q3, c.key_type));
            assert(cell_seq_at(bytes@, q3, q4, c.cell_type));
            assert(rows_at(bytes@, q4, e, c.data));
        }
    }
    let (name, p1) = match read_str(bytes, pos) {
        Ok(p) => p,
        Err(e) => {
            proof {
                if has_w {
                    assert(false);
                }
                assert forall|c: GameConfigView, end: int| !#[trigger] config_at(
                    bytes@,
                    pos as int,
                    end,
                    c,
                ) by {
                    if config_at(bytes@, pos as int, end, c) {
                        assert(has_w);
                    }
                }
            }
            return Err(e);
        },
    };
    proof {
        if has_w {
            lemma_enc_str_aligned(bytes@, pos as int, p1 as int, q1, name@, w.0.name);
        }
    }
    let (cell_name, p2) = match read_str_vec(bytes, p1) {
        Ok(p) => p,
        Err(e) => {
            proof {
                if has_w {
                    assert(false);
                }
                assert forall|c: GameConfigView, end: int| !#[trigger] config_at(
                    bytes@,
                    pos as int,
                    end,
                    c,
                ) by {
                    if config_at(bytes@, pos as int, end, c) {
                        assert(has_w);
                    }
                }
            }
            return Err(e);
        },
    };
    proof {
        if has_w {
            lemma_enc_str_seq_aligned(
                bytes@,
                p1 as int,
                p2 as int,
                q2,
                cell_name.deep_view(),
                w.0.cell_name,
            );
        }
    }
    let (key_type, p3) = match read_key_vec(bytes, p2) {
        Ok(p) => p,
        Err(e) => {
            proof {
                if has_w {
                    assert(false);
                }
                assert forall|c: GameConfigView, end: int| !#[trigger] config_at(
                    bytes@,
                    pos as int,
                    end,
                    c,
                ) by {
                    if config_at(bytes@, pos as int, end, c) {
                        assert(has_w);
                    }
                }
            }
            return Err(e);
        },
    };
    proof {
        if has_w {
            lemma_enc_key_seq_aligned(bytes@, p2 as int, p3 as int, q3, key_type@, w.0.key_type);
        }
    }
    let (cell_type, p4) = match read_cell_vec(bytes, p3) {
        Ok(p) => p,
        Err(e) => {
            proof {
                if has_w {
                    assert(false);
                }
                assert forall|c: GameConfigView, end: int| !#[trigger] config_at(
                    bytes@,
                    pos as int,
                    end,
                    c,
                ) by {
                    if config_at(bytes@, pos as int, end, c) {
                        assert(has_w);
                    }
                }
            }
            return Err(e);
        },
    };
    proof {
        if has_w {
            lemma_enc_cell_seq_aligned(
                bytes@,
                p3 as int,
                p4 as int,
                q4,
                cell_type@,
                w.0.cell_type,
            );
        }
    }
    let (data, p5) = match read_rows(bytes, p4) {
        Ok(p) => p,
        Err(e) => {
            proof {
                if has_w {
                    assert(false);
                }
                assert forall|c: GameConfigView, end: int| !#[trigger] config_at(
                    bytes@,
                    pos as int,
                    end,
                    c,
                ) by {
                    if config_at(bytes@, pos as int, end, c) {
                        assert(has_w);
                    }
                }
            }
            return Err(e);
        },
    };
    let c = GameConfig { name, cell_name, key_type, cell_type, data };
    proof {
        assert(bytes@.subrange(pos as int, p5 as int) =~= bytes@.subrange(pos as int, p1 as int)
            + bytes@.subrange(p1 as int, p2 as int) + bytes@.subrange(p2 as int, p3 as int)
            + bytes@.subrange(p3 as int, p4 as int) + bytes@.subrange(p4 as int, p5 as int));
        assert(bytes@.subrange(pos as int, p5 as int) =~= enc_config(c@));
    }
    Ok((c, p5))
}

/// Decodes one blob produced by [`encode_game_configs`]. On success the
/// input is, byte for byte, exactly the encoding of the returned dataset, so
/// re-encoding reproduces it; truncated or corrupted input, and trailing
/// bytes, are rejected rather than read past. Conversely, the encoding of
/// any dataset decodes, and to that dataset, so decoding accepts exactly the
/// valid blobs and inverts the encoder.
pub fn decode_game_configs(bytes: &[u8]) -> (r: Result<GameConfigs, DecodeError>)
    ensures
        r matches Ok(g) ==> bytes@ == enc_game_configs(g@),
        forall|g: GameConfigsView| bytes@ == #[trigger] enc_game_configs(g) ==> (r matches Ok(g2)
            && g2@ == g),
{
    let blen = bytes.len();
    let ghost has_w = exists|g: GameConfigsView| bytes@ == enc_game_configs(g);
    let ghost w: GameConfigsView = if has_w {
        choose|g: GameConfigsView| bytes@ == enc_game_configs(g)
    } else {
        arbitrary()
    };
    let ghost q1: int = enc_str(w.commit_id).len() as int;
    let ghost q2: int = q1 + 16;
    let ghost q3: int = q2 + 8;
    proof {
        vstd::bytes::lemma_auto_spec_u64_to_from_le_bytes();
        vstd::bytes::lemma_auto_spec_u128_to_from_le_bytes();
        if has_w {
            assert(bytes@.subrange(0, bytes@.len() as int) =~= bytes@);
            assert(enc_game_configs(w) =~= enc_str(w.commit_id) + (spec_u128_to_le_bytes(
                w.create_mills,
            ) + (spec_u64_to_le_bytes(w.data.len() as u64) + cat_configs(w.data))));
            lemma_prefix_parts(
                bytes@,
                0,
                bytes@.len() as int,
                enc_str(w.commit_id),
                spec_u128_to_le_bytes(w.create_mills) + (spec_u64_to_le_bytes(w.data.len() as u64)
                    + cat_configs(w.data)),
            );
            assert(spec_u128_to_le_bytes(w.create_mills).len() == 16);
            lemma_prefix_parts(
                bytes@,
                q1,
                bytes@.len() as int,
                spec_u128_to_le_bytes(w.create_mills),
                spec_u64_to_le_bytes(w.data.len() as u64) + cat_configs(w.data),
            );
            assert(spec_u64_to_le_bytes(w.data.len() as u64).len() == 8);
            lemma_prefix_parts(
                bytes@,
                q2,
                bytes@.len() as int,
                spec_u64_to_le_bytes(w.data.len() as u64),
                cat_configs(w.data),
            );
            assert(str_at(bytes@, 0, q1, w.commit_id));
            lemma_cat_configs_min(w.data);
        }
    }
    let (commit_id, p1) = match read_str(bytes, 0) {
        Ok(p) => p,
        Err(e) => {
            proof {
                if has_w {
                    assert(false);
                }
                assert forall|g: GameConfigsView| bytes@ != #[trigger] enc_game_configs(g) by {
                    if bytes@ == enc_game_configs(g) {
                        assert(has_w);
                    }
                }
            }
            return Err(e);
        },
    };
    proof {
        if has_w {
            lemma_enc_str_aligned(bytes@, 0, p1 as int, q1, commit_id@, w.commit_id);
        }
    }
    let (create_mills, p2) = match read_u128(bytes, p1) {
        Ok(p) => p,
        Err(e) => {
            proof {
                if has_w {
                    assert(false);
                }
                assert forall|g: GameConfigsView| bytes@ != #[trigger] enc_game_configs(g) by {
                    if bytes@ == enc_game_configs(g) {
                        assert(has_w);
                    }
                }
            }
            return Err(e);
        },
    };
    let (n, body) = match read_u64(bytes, p2) {
        Ok(p) => p,
        Err(e) => {
            proof {
                if has_w {
                    assert(false);
                }
                assert forall|g: GameConfigsView| bytes@ != #[trigger] enc_game_configs(g) by {
                    if bytes@ == enc_game_configs(g) {
                        assert(has_w);
                    }
                }
            }
            return Err(e);
        },
    };
    proof {
        if has_w {
            assert(w.data.len() <= u64::MAX);
            assert(n == w.data.len());
            assert(w.data.skip(0) =~= w.data);
        }
    }
    let mut data: Vec<GameConfig> = Vec::new();
    let mut cur: usize = body;
    let mut i: u64 = 0;
    proof {
        assert(bytes@.subrange(body as int, body as int) =~= cat_configs(data.deep_view()));
    }
    while i < n
        invariant
            i <= n,
            body <= cur <= bytes@.len(),
            bytes@.len() <= u64::MAX,
            data@.len() == i,
            bytes@.subrange(p2 as int, body as int) == spec_u64_to_le_bytes(n),
            bytes@.subrange(body as int, cur as int) == cat_configs(data.deep_view()),
            has_w == exists|g: GameConfigsView| bytes@ == enc_game_configs(g),
            has_w ==> i <= w.data.len() && n == w.data.len() && cur <= bytes@.len()
                && bytes@.subrange(cur as int, bytes@.len() as int) == cat_configs(
                w.data.skip(i as int),
            ),
        decreases n - i,
    {
        let ghost before = data.deep_view();
        let ghost prev = cur;
        proof {
            if has_w {
                assert(w.data.skip(i as int)[0] == w.data[i as int]);
                assert(w.data.skip(i as int).drop_first() =~= w.data.skip(i as int + 1));
                assert(cat_configs(w.data.skip(i as int)) == enc_config(w.data[i as int])
                    + cat_configs(w.data.skip(i as int + 1)));
                lemma_prefix_parts(
                    bytes@,
                    cur as int,
                    bytes@.len() as int,
                    enc_config(w.data[i as int]),
                    cat_configs(w.data.skip(i as int + 1)),
                );
                assert(config_at(
                    bytes@,
                    cur as int,
                    cur + enc_config(w.data[i as int]).len(),
                    w.data[i as int],
                ));
            }
        }
        let (c, next) = match read_config(bytes, cur) {
            Ok(p) => p,
            Err(e) => {
                proof {
                    if has_w {
                        assert(false);
                    }
                    assert forall|g: GameConfigsView| bytes@ != #[trigger] enc_game_configs(g) by {
                        if bytes@ == enc_game_configs(g) {
                            assert(has_w);
                        }
                    }
                }
                return Err(e);
            },
        };
        proof {
            if has_w {
                lemma_enc_config_aligned(
                    bytes@,
                    cur as int,
                    next as int,
                    cur + enc_config(w.data[i as int]).len(),
                    c@,
                    w.data[i as int],
                );
            }
            lemma_cat_configs_snoc(before, c@);
            assert(bytes@.subrange(body as int, next as int) =~= bytes@.subrange(
                body as int,
                prev as int,
            ) + bytes@.subrange(prev as int, next as int));
        }
        data.push(c);
        cur = next;
        proof {
            assert(data.deep_view() =~= before.push(data@[i as int].deep_view()));
        }
        i = i + 1;
    }
    if cur != bytes.len() {
        proof {
            if has_w {
                assert(cat_configs(w.data.skip(n as int)).len() == 0);
                assert(false);
            }
            assert forall|g: GameConfigsView| bytes@ != #[trigger] enc_game_configs(g) by {
                if bytes@ == enc_game_configs(g) {
                    assert(has_w);
                }
            }
        }
        return Err(DecodeError::Invalid);
    }
    let g = GameConfigs { commit_id, create_mills, data };
    proof {
        assert(bytes@.subrange(0, bytes@.len() as int) =~= bytes@);
        assert(bytes@.subrange(0, cur as int) =~= bytes@.subrange(0, p1 as int) + bytes@.subrange(
            p1 as int,
            p2 as int,
        ) + bytes@.subrange(p2 as int, body as int) + bytes@.subrange(body as int, cur as int));
        assert(bytes@ =~= enc_game_configs(g@));
        assert forall|gw: GameConfigsView| bytes@ == #[trigger] enc_game_configs(gw) implies g@
            == gw by {
            lemma_enc_game_configs_aligned(bytes@, gw, g@);
        }
    }
    Ok(g)
}

} // verus!
