//! Whole-structure persistence: the tile grid is encoded into a flat word
//! stream (little-endian, eight bytes per word) and decoded back; decoding
//! an encoding reproduces the grid field for field.

use vstd::prelude::*;

use crate::mini_map::MiniMap;
use crate::tile_map::{EntityLight, TileMap};
use vstd::utf8::{decode_utf8, encode_utf8, valid_utf8};

verus! {

pub open spec fn byte0(v: u64) -> u8 {
    (v & 0xff) as u8
}

pub open spec fn byte1(v: u64) -> u8 {
    ((v >> 8) & 0xff) as u8
}

pub open spec fn byte2(v: u64) -> u8 {
    ((v >> 16) & 0xff) as u8
}

pub open spec fn byte3(v: u64) -> u8 {
    ((v >> 24) & 0xff) as u8
}

pub open spec fn byte4(v: u64) -> u8 {
    ((v >> 32) & 0xff) as u8
}

pub open spec fn byte5(v: u64) -> u8 {
    ((v >> 40) & 0xff) as u8
}

pub open spec fn byte6(v: u64) -> u8 {
    ((v >> 48) & 0xff) as u8
}

pub open spec fn byte7(v: u64) -> u8 {
    ((v >> 56) & 0xff) as u8
}

/// A word reassembled from its eight little-endian bytes.
pub open spec fn assemble(
    b0: u8,
    b1: u8,
    b2: u8,
    b3: u8,
    b4: u8,
    b5: u8,
    b6: u8,
    b7: u8,
) -> u64 {
    (b0 as u64) | ((b1 as u64) << 8) | ((b2 as u64) << 16) | ((b3 as u64) << 24) | ((
    b4 as u64) << 32) | ((b5 as u64) << 40) | ((b6 as u64) << 48) | ((b7 as u64) << 56)
}

/// The eight little-endian bytes of a word.
pub open spec fn enc_u64(v: u64) -> Seq<u8> {
    seq![byte0(v), byte1(v), byte2(v), byte3(v), byte4(v), byte5(v), byte6(v), byte7(v)]
}

/// The word read from eight little-endian bytes at `i`.
pub open spec fn dec_u64_at(b: Seq<u8>, i: int) -> u64 {
    assemble(b[i], b[i + 1], b[i + 2], b[i + 3], b[i + 4], b[i + 5], b[i + 6], b[i + 7])
}

/// Splitting a word into bytes and reassembling them gives the word back.
pub proof fn lemma_u64_bytes_rt(v: u64)
    ensures
        assemble(
            byte0(v),
            byte1(v),
            byte2(v),
            byte3(v),
            byte4(v),
            byte5(v),
            byte6(v),
            byte7(v),
        ) == v,
{
    assert(((v & 0xff) as u8 as u64) | ((((v >> 8) & 0xff) as u8 as u64) << 8) | ((((v >> 16)
        & 0xff) as u8 as u64) << 16) | ((((v >> 24) & 0xff) as u8 as u64) << 24) | ((((v >> 32)
        & 0xff) as u8 as u64) << 32) | ((((v >> 40) & 0xff) as u8 as u64) << 40) | ((((v >> 48)
        & 0xff) as u8 as u64) << 48) | ((((v >> 56) & 0xff) as u8 as u64) << 56) == v)
        by (bit_vector);
}

/// A word list flattened into bytes, first `k` words.
pub open spec fn enc_words(ws: Seq<u64>, k: int) -> Seq<u8>
    decreases k,
{
    if k <= 0 {
        Seq::empty()
    } else {
        enc_words(ws, k - 1) + enc_u64(ws[k - 1])
    }
}

pub proof fn lemma_enc_words_len(ws: Seq<u64>, k: int)
    requires
        0 <= k,
    ensures
        enc_words(ws, k).len() == 8 * k,
    decreases k,
{
    if k > 0 {
        lemma_enc_words_len(ws, k - 1);
    }
}

/// Reading word `i` back out of the flattened bytes gives the word.
pub proof fn lemma_enc_words_at(ws: Seq<u64>, k: int, i: int)
    requires
        0 <= i < k,
    ensures
        dec_u64_at(enc_words(ws, k), 8 * i) == ws[i],
    decreases k,
{
    lemma_enc_words_len(ws, k);
    lemma_enc_words_len(ws, k - 1);
    if i < k - 1 {
        lemma_enc_words_at(ws, k - 1, i);
    } else {
        lemma_u64_bytes_rt(ws[i]);
    }
}

/// The words stored in a byte stream.
pub open spec fn dec_words(b: Seq<u8>) -> Seq<u64> {
    Seq::new((b.len() / 8) as nat, |i: int| dec_u64_at(b, 8 * i))
}

/// Flattening words to bytes and reading them back gives the words.
pub proof fn lemma_words_rt(ws: Seq<u64>)
    ensures
        enc_words(ws, ws.len() as int).len() == 8 * ws.len(),
        enc_words(ws, ws.len() as int).len() % 8 == 0,
        dec_words(enc_words(ws, ws.len() as int)) == ws,
{
    let n = ws.len() as int;
    lemma_enc_words_len(ws, n);
    assert((8 * n) % 8 == 0 && (8 * n) / 8 == n) by (nonlinear_arith)
        requires
            0 <= n,
    ;
    assert forall|i: int| 0 <= i < n implies dec_words(enc_words(ws, n))[i] == ws[i] by {
        lemma_enc_words_at(ws, n, i);
    }
    assert(dec_words(enc_words(ws, n)) =~= ws);
}

/// The abstract content of one entity light as the codec sees it.
pub struct EntityModel {
    pub name: Seq<char>,
    pub px: i64,
    pub py: i64,
    pub red: u8,
    pub green: u8,
    pub blue: u8,
    pub strength: u32,
}

/// The abstract content of a tile grid as the codec sees it: every field the
/// grid persists, as mathematical values.
pub struct TileMapModel {
    pub width: int,
    pub height: int,
    pub tiles: Seq<u32>,
    pub lighting: Seq<u8>,
    pub sky: Seq<u32>,
    pub mini: Seq<u16>,
    pub entities: Seq<EntityModel>,
}

pub open spec fn entity_view(e: (String, EntityLight)) -> EntityModel {
    EntityModel {
        name: e.0@,
        px: e.1.position.0,
        py: e.1.position.1,
        red: e.1.color.0,
        green: e.1.color.1,
        blue: e.1.color.2,
        strength: e.1.color.3,
    }
}

/// The abstract content of a grid.
pub open spec fn spec_view(m: TileMap) -> TileMapModel {
    TileMapModel {
        width: m.width as int,
        height: m.height as int,
        tiles: m.tiles@,
        lighting: m.lighting@,
        sky: m.sky_light@,
        mini: m.mini_map.lighting@,
        entities: Seq::new(m.entity_lights@.len(), |i: int| entity_view(m.entity_lights@[i])),
    }
}

pub open spec fn map_u32_words(v: Seq<u32>) -> Seq<u64> {
    Seq::new(v.len(), |i: int| v[i] as u64)
}

pub open spec fn map_u8_words(v: Seq<u8>) -> Seq<u64> {
    Seq::new(v.len(), |i: int| v[i] as u64)
}

pub open spec fn map_u16_words(v: Seq<u16>) -> Seq<u64> {
    Seq::new(v.len(), |i: int| v[i] as u64)
}

/// One entity light as words: the name's byte length, the name's UTF-8
/// bytes, the position pair, the three color channels, and the strength.
pub open spec fn entity_words(e: (String, EntityLight)) -> Seq<u64> {
    let nb = encode_utf8(e.0@);
    seq![nb.len() as u64] + Seq::new(nb.len(), |i: int| nb[i] as u64) + seq![
        e.1.position.0 as u64,
        e.1.position.1 as u64,
        e.1.color.0 as u64,
        e.1.color.1 as u64,
        e.1.color.2 as u64,
        e.1.color.3 as u64,
    ]
}

/// The first `k` entity lights as words, in order.
pub open spec fn entities_words(es: Seq<(String, EntityLight)>, k: int) -> Seq<u64>
    decreases k,
{
    if k <= 0 {
        Seq::empty()
    } else {
        entities_words(es, k - 1) + entity_words(es[k - 1])
    }
}

/// A whole grid as words: dimensions, the tile buffer, the light buffer,
/// the sky-light heights, the mini-map accumulator, and the entity lights
/// behind their count.
pub open spec fn spec_encode_words(m: TileMap) -> Seq<u64> {
    seq![m.width as u64, m.height as u64] + map_u32_words(m.tiles@) + map_u8_words(m.lighting@)
        + map_u32_words(m.sky_light@) + map_u16_words(m.mini_map.lighting@) + seq![
        m.entity_lights@.len() as u64,
    ] + entities_words(m.entity_lights@, m.entity_lights@.len() as int)
}

/// A whole grid as bytes.
pub open spec fn spec_encode(m: TileMap) -> Seq<u8> {
    enc_words(spec_encode_words(m), spec_encode_words(m).len() as int)
}

/// Parses one entity light at word position `pos`.
pub open spec fn dec_entity(ws: Seq<u64>, pos: int) -> Option<(EntityModel, int)> {
    if 0 <= pos < ws.len() {
        let nlen = ws[pos] as int;
        if pos + 1 + nlen + 6 <= ws.len() && (forall|t: int|
            pos + 1 <= t < pos + 1 + nlen ==> ws[t] < 256) {
            let nb = Seq::new(nlen as nat, |j: int| ws[pos + 1 + j] as u8);
            if valid_utf8(nb) && ws[pos + 1 + nlen + 2] < 256 && ws[pos + 1 + nlen + 3] < 256
                && ws[pos + 1 + nlen + 4] < 256 && ws[pos + 1 + nlen + 5] <= u32::MAX as u64 {
                Some(
                    (
                        EntityModel {
                            name: decode_utf8(nb),
                            px: ws[pos + 1 + nlen] as i64,
                            py: ws[pos + 1 + nlen + 1] as i64,
                            red: ws[pos + 1 + nlen + 2] as u8,
                            green: ws[pos + 1 + nlen + 3] as u8,
                            blue: ws[pos + 1 + nlen + 4] as u8,
                            strength: ws[pos + 1 + nlen + 5] as u32,
                        },
                        pos + 1 + nlen + 6,
                    ),
                )
            } else {
                None
            }
        } else {
            None
        }
    } else {
        None
    }
}

/// Parses `k` entity lights starting at word position `pos`.
pub open spec fn dec_entities(ws: Seq<u64>, pos: int, k: int) -> Option<(Seq<EntityModel>, int)>
    decreases k,
{
    if k <= 0 {
        Some((Seq::empty(), pos))
    } else {
        match dec_entities(ws, pos, k - 1) {
            Some(pr) => match dec_entity(ws, pr.1) {
                Some(e) => Some((pr.0.push(e.0), e.1)),
                None => None,
            },
            None => None,
        }
    }
}

/// Parses a whole grid from words; yields nothing when any length, range or
/// consistency check fails.
pub open spec fn spec_decode_words(ws: Seq<u64>) -> Option<TileMapModel> {
    if ws.len() >= 2 {
        let w = ws[0] as int;
        let h = ws[1] as int;
        if 1 <= w <= u32::MAX && 1 <= h <= u32::MAX && 3 * (w * h) <= usize::MAX {
            let cells = w * h;
            let fixed = 2 + 3 * cells + 3 * cells + w + cells + 1;
            if ws.len() >= fixed && (forall|t: int|
                2 <= t < 2 + 3 * cells ==> ws[t] <= u32::MAX as u64) && (forall|t: int|
                2 + 3 * cells <= t < 2 + 6 * cells ==> ws[t] < 256) && (forall|t: int|
                2 + 6 * cells <= t < 2 + 6 * cells + w ==> ws[t] <= h as u64) && (forall|t: int|
                2 + 6 * cells + w <= t < 2 + 6 * cells + w + cells ==> ws[t] < 65536) {
                let count = ws[fixed - 1] as int;
                match dec_entities(ws, fixed, count) {
                    Some(pr) => if pr.1 == ws.len() {
                        Some(
                            TileMapModel {
                                width: w,
                                height: h,
                                tiles: Seq::new((3 * cells) as nat, |i: int| ws[2 + i] as u32),
                                lighting: Seq::new(
                                    (3 * cells) as nat,
                                    |i: int| ws[2 + 3 * cells + i] as u8,
                                ),
                                sky: Seq::new(w as nat, |i: int| ws[2 + 6 * cells + i] as u32),
                                mini: Seq::new(
                                    cells as nat,
                                    |i: int| ws[2 + 6 * cells + w + i] as u16,
                                ),
                                entities: pr.0,
                            },
                        )
                    } else {
                        None
                    },
                    None => None,
                }
            } else {
                None
            }
        } else {
            None
        }
    } else {
        None
    }
}

/// Parses a whole grid from bytes.
pub open spec fn spec_decode(b: Seq<u8>) -> Option<TileMapModel> {
    if b.len() % 8 == 0 {
        spec_decode_words(dec_words(b))
    } else {
        None
    }
}

/// Casting an i64 through u64 and back gives the value back.
proof fn lemma_i64_words_rt(x: i64)
    ensures
        (x as u64) as i64 == x,
{
    assert((x as u64) as i64 == x) by (bit_vector);
}

/// Earlier entities occupy the same word positions in any longer prefix of
/// the entity section.
proof fn lemma_entities_words_prefix(es: Seq<(String, EntityLight)>, k: int, n: int)
    requires
        0 <= k <= n,
    ensures
        entities_words(es, k).len() <= entities_words(es, n).len(),
        forall|j: int|
            0 <= j < entities_words(es, k).len() ==> #[trigger] entities_words(es, n)[j]
                == entities_words(es, k)[j],
    decreases n,
{
    if k < n {
        lemma_entities_words_prefix(es, k, n - 1);
    }
}

/// Parsing the entity section of an encoding yields the entities back.
#[verifier::rlimit(100)]
proof fn lemma_dec_entities_rt(es: Seq<(String, EntityLight)>, ws: Seq<u64>, base: int, k: int)
    requires
        0 <= base,
        0 <= k <= es.len(),
        es.len() <= u64::MAX,
        forall|i: int|
            0 <= i < es.len() ==> #[trigger] encode_utf8(es[i].0@).len() <= u64::MAX,
        ws.len() == base + entities_words(es, es.len() as int).len(),
        forall|t: int|
            base <= t < ws.len() ==> #[trigger] ws[t] == entities_words(es, es.len() as int)[t
                - base],
    ensures
        dec_entities(ws, base, k) == Some(
            (Seq::new(k as nat, |i: int| entity_view(es[i])), base + entities_words(
                es,
                k,
            ).len() as int),
        ),
    decreases k,
{
    let n = es.len() as int;
    if k == 0 {
        assert(Seq::new(0nat, |i: int| entity_view(es[i])) =~= Seq::<EntityModel>::empty());
    } else {
        lemma_dec_entities_rt(es, ws, base, k - 1);
        let p = base + entities_words(es, k - 1).len() as int;
        let e = es[k - 1];
        let ew = entity_words(e);
        let nb = encode_utf8(e.0@);
        lemma_entities_words_prefix(es, k, n);
        lemma_entities_words_prefix(es, k - 1, k);
        // The words of the k-th entity sit at positions p .. p + ew.len().
        assert forall|u: int| p <= u < p + ew.len() implies #[trigger] ws[u] == ew[u - p] by {
            assert(entities_words(es, k)[u - base] == ew[u - p]);
            assert(ws[u] == entities_words(es, n)[u - base]);
        }
        assert(ws[p] == nb.len() as u64);
        let nlen = nb.len() as int;
        assert forall|t: int| p + 1 <= t < p + 1 + nlen implies ws[t] < 256 && ws[t] as u8 == nb[
            t - (p + 1)] by {
            assert(ws[t] == ew[t - p]);
        }
        let nb2 = Seq::new(nlen as nat, |j: int| ws[p + 1 + j] as u8);
        assert(nb2 =~= nb);
        vstd::utf8::encode_utf8_valid_utf8(e.0@);
        vstd::utf8::encode_utf8_decode_utf8(e.0@);
        assert(ws[p + 1 + nlen] == ew[1 + nlen]);
        assert(ws[p + 1 + nlen + 1] == ew[1 + nlen + 1]);
        assert(ws[p + 1 + nlen + 2] == ew[1 + nlen + 2]);
        assert(ws[p + 1 + nlen + 3] == ew[1 + nlen + 3]);
        assert(ws[p + 1 + nlen + 4] == ew[1 + nlen + 4]);
        assert(ws[p + 1 + nlen + 5] == ew[1 + nlen + 5]);
        lemma_i64_words_rt(e.1.position.0);
        lemma_i64_words_rt(e.1.position.1);
        assert(dec_entity(ws, p) == Some(
            (entity_view(e), p + 1 + nlen + 6),
        ));
        assert(Seq::new((k - 1) as nat, |i: int| entity_view(es[i])).push(entity_view(e))
            =~= Seq::new(k as nat, |i: int| entity_view(es[i])));
    }
}

/// Decoding an encoded grid reproduces the grid's content field for field.
///
/// This is the round-trip law of persistence: for every well-formed grid,
/// `spec_decode` applied to `spec_encode` yields exactly the grid's
/// abstract content, entity lights included.
#[verifier::rlimit(100)]
pub proof fn lemma_round_trip(m: TileMap)
    requires
        m.wf(),
        m.entity_lights@.len() <= u64::MAX,
        forall|i: int|
            0 <= i < m.entity_lights@.len() ==> #[trigger] encode_utf8(
                m.entity_lights@[i].0@,
            ).len() <= u64::MAX,
    ensures
        spec_decode(spec_encode(m)) == Some(spec_view(m)),
{
    let ws = spec_encode_words(m);
    lemma_words_rt(ws);
    let w = m.width as int;
    let h = m.height as int;
    let cells = w * h;
    let es = m.entity_lights@;
    let n = es.len() as int;
    let fixed = 2 + 3 * cells + 3 * cells + w + cells + 1;
    assert(map_u32_words(m.tiles@).len() == 3 * cells);
    assert(map_u8_words(m.lighting@).len() == 3 * cells);
    assert(map_u32_words(m.sky_light@).len() == w);
    assert(map_u16_words(m.mini_map.lighting@).len() == cells);
    assert(ws.len() == fixed + entities_words(es, n).len()) by {
        lemma_entities_words_len_nonneg(es, n);
    }
    assert(ws[0] == m.width as u64);
    assert(ws[1] == m.height as u64);
    assert forall|t: int| 2 <= t < 2 + 3 * cells implies #[trigger] ws[t] == m.tiles@[t - 2]
        as u64 by {}
    assert forall|t: int| 2 + 3 * cells <= t < 2 + 6 * cells implies #[trigger] ws[t]
        == m.lighting@[t - (2 + 3 * cells)] as u64 by {}
    assert forall|t: int| 2 + 6 * cells <= t < 2 + 6 * cells + w implies #[trigger] ws[t]
        == m.sky_light@[t - (2 + 6 * cells)] as u64 by {}
    assert forall|t: int| 2 + 6 * cells + w <= t < 2 + 6 * cells + w + cells
        implies #[trigger] ws[t] == m.mini_map.lighting@[t - (2 + 6 * cells + w)] as u64 by {}
    assert(ws[fixed - 1] == n as u64);
    assert forall|t: int| fixed <= t < ws.len() implies #[trigger] ws[t] == entities_words(
        es,
        n,
    )[t - fixed] by {}
    lemma_dec_entities_rt(es, ws, fixed, n);
    let model = spec_decode_words(ws);
    assert(Seq::new((3 * cells) as nat, |i: int| ws[2 + i] as u32) =~= m.tiles@);
    assert(Seq::new((3 * cells) as nat, |i: int| ws[2 + 3 * cells + i] as u8) =~= m.lighting@);
    assert(Seq::new(w as nat, |i: int| ws[2 + 6 * cells + i] as u32) =~= m.sky_light@);
    assert(Seq::new(cells as nat, |i: int| ws[2 + 6 * cells + w + i] as u16)
        =~= m.mini_map.lighting@);
    assert(model == Some(spec_view(m)));
}

proof fn lemma_entities_words_len_nonneg(es: Seq<(String, EntityLight)>, k: int)
    ensures
        entities_words(es, k).len() >= 0,
{
}

/// A failed parse of some entity stays failed for any larger count.
proof fn lemma_dec_entities_none(ws: Seq<u64>, pos: int, k1: int, k2: int)
    requires
        0 <= k1 <= k2,
        dec_entities(ws, pos, k1) is None,
    ensures
        dec_entities(ws, pos, k2) is None,
    decreases k2,
{
    if k1 < k2 {
        lemma_dec_entities_none(ws, pos, k1, k2 - 1);
    }
}

/// Relies on `String::from_utf8` of std: it succeeds exactly on valid UTF-8
/// input, and the returned string's byte representation is the input.
#[verifier::external_body]
fn string_from_utf8(v: Vec<u8>) -> (r: Option<String>)
    ensures
        r is Some <==> valid_utf8(v@),
        r matches Some(s) ==> encode_utf8(s@) == v@,
{
    String::from_utf8(v).ok()
}

/// Encodes a grid into bytes. The output is exactly the grid's encoding,
/// and decoding it gives the grid's content back.
pub fn encode_tile_map(m: &TileMap) -> (r: Vec<u8>)
    requires
        m.wf(),
    ensures
        r@ == spec_encode(*m),
        spec_decode(r@) == Some(spec_view(*m)),
{
    let ghost target = spec_encode_words(*m);
    let mut words: Vec<u64> = Vec::new();
    words.push(m.width as u64);
    words.push(m.height as u64);
    let ghost s0 = seq![m.width as u64, m.height as u64];
    proof {
        assert(words@ =~= s0);
    }
    let mut i: usize = 0;
    let tiles_len = m.tiles.len();
    while i < tiles_len
        invariant
            tiles_len == m.tiles@.len(),
            i <= tiles_len,
            s0 == seq![m.width as u64, m.height as u64],
            words@ == s0 + Seq::new(i as nat, |j: int| m.tiles@[j] as u64),
        decreases tiles_len - i,
    {
        words.push(m.tiles[i] as u64);
        proof {
            assert(words@ =~= s0 + Seq::new((i + 1) as nat, |j: int| m.tiles@[j] as u64));
        }
        i += 1;
    }
    let ghost s1 = s0 + map_u32_words(m.tiles@);
    proof {
        assert(words@ =~= s1);
    }
    let mut i: usize = 0;
    let light_len = m.lighting.len();
    while i < light_len
        invariant
            light_len == m.lighting@.len(),
            i <= light_len,
            words@ == s1 + Seq::new(i as nat, |j: int| m.lighting@[j] as u64),
        decreases light_len - i,
    {
        words.push(m.lighting[i] as u64);
        proof {
            assert(words@ =~= s1 + Seq::new((i + 1) as nat, |j: int| m.lighting@[j] as u64));
        }
        i += 1;
    }
    let ghost s2 = s1 + map_u8_words(m.lighting@);
    proof {
        assert(words@ =~= s2);
    }
    let mut i: usize = 0;
    let sky_len = m.sky_light.len();
    while i < sky_len
        invariant
            sky_len == m.sky_light@.len(),
            i <= sky_len,
            words@ == s2 + Seq::new(i as nat, |j: int| m.sky_light@[j] as u64),
        decreases sky_len - i,
    {
        words.push(m.sky_light[i] as u64);
        proof {
            assert(words@ =~= s2 + Seq::new((i + 1) as nat, |j: int| m.sky_light@[j] as u64));
        }
        i += 1;
    }
    let ghost s3 = s2 + map_u32_words(m.sky_light@);
    proof {
        assert(words@ =~= s3);
    }
    let mut i: usize = 0;
    let mini_len = m.mini_map.lighting.len();
    while i < mini_len
        invariant
            mini_len == m.mini_map.lighting@.len(),
            i <= mini_len,
            words@ == s3 + Seq::new(i as nat, |j: int| m.mini_map.lighting@[j] as u64),
        decreases mini_len - i,
    {
        words.push(m.mini_map.lighting[i] as u64);
        proof {
            assert(words@ =~= s3 + Seq::new(
                (i + 1) as nat,
                |j: int| m.mini_map.lighting@[j] as u64,
            ));
        }
        i += 1;
    }
    let ghost s4 = s3 + map_u16_words(m.mini_map.lighting@);
    proof {
        assert(words@ =~= s4);
    }
    let count = m.entity_lights.len();
    words.push(count as u64);
    let ghost s5 = s4 + seq![m.entity_lights@.len() as u64];
    proof {
        assert(words@ =~= s5);
    }
    let ghost es = m.entity_lights@;
    let mut k: usize = 0;
    while k < count
        invariant
            count == es.len(),
            es == m.entity_lights@,
            k <= count,
            words@ == s5 + entities_words(es, k as int),
            forall|i: int|
                0 <= i < k ==> #[trigger] encode_utf8(es[i].0@).len() <= u64::MAX,
        decreases count - k,
    {
        let nb = m.entity_lights[k].0.as_str().as_bytes_vec();
        let nlen = nb.len();
        words.push(nlen as u64);
        let ghost prev = s5 + entities_words(es, k as int);
        let mut j: usize = 0;
        while j < nlen
            invariant
                nlen == nb@.len(),
                j <= nlen,
                nb@ == encode_utf8(es[k as int].0@),
                words@ == prev + seq![nlen as u64] + Seq::new(j as nat, |t: int| nb@[t] as u64),
            decreases nlen - j,
        {
            words.push(nb[j] as u64);
            proof {
                assert(words@ =~= prev + seq![nlen as u64] + Seq::new(
                    (j + 1) as nat,
                    |t: int| nb@[t] as u64,
                ));
            }
            j += 1;
        }
        let light = &m.entity_lights[k].1;
        words.push(light.position.0 as u64);
        words.push(light.position.1 as u64);
        words.push(light.color.0 as u64);
        words.push(light.color.1 as u64);
        words.push(light.color.2 as u64);
        words.push(light.color.3 as u64);
        proof {
            assert(words@ =~= s5 + (entities_words(es, k as int) + entity_words(es[k as int])));
            assert(words@ =~= s5 + entities_words(es, k + 1));
        }
        k += 1;
    }
    proof {
        assert(words@ =~= target);
    }
    let mut out: Vec<u8> = Vec::new();
    let n = words.len();
    let mut i: usize = 0;
    while i < n
        invariant
            n == words@.len(),
            i <= n,
            out@ == enc_words(words@, i as int),
        decreases n - i,
    {
        write_u64(&mut out, words[i]);
        i += 1;
    }
    proof {
        assert(out@ == spec_encode(*m));
        lemma_round_trip(*m);
    }
    out
}

/// A parse that fails at the current entity fails for the whole count.
proof fn entities_parse_fails(ws: Seq<u64>, base: int, k: int, count: int, pos: int)
    requires
        0 <= k < count,
        dec_entities(ws, base, k) matches Some(pr) && pr.1 == pos,
        dec_entity(ws, pos) is None,
    ensures
        dec_entities(ws, base, count) is None,
{
    assert(dec_entities(ws, base, k + 1) is None);
    lemma_dec_entities_none(ws, base, k + 1, count);
}

/// The header facts a successful decode has established: byte alignment,
/// the word view, and in-range dimensions with enough words for the fixed
/// sections.
pub open spec fn header_ok(b: Seq<u8>, ws: Seq<u64>, w: int, h: int) -> bool {
    &&& b.len() % 8 == 0
    &&& ws == dec_words(b)
    &&& ws.len() >= 2
    &&& w == ws[0] as int
    &&& h == ws[1] as int
    &&& 1 <= w <= u32::MAX
    &&& 1 <= h <= u32::MAX
    &&& 3 * (w * h) <= usize::MAX
    &&& ws.len() >= 2 + 3 * (w * h) + 3 * (w * h) + w + (w * h) + 1
}

/// The per-section range checks a successful decode has established.
pub open spec fn sections_ok(ws: Seq<u64>, w: int, h: int) -> bool {
    let cells = w * h;
    &&& (forall|t: int| 2 <= t < 2 + 3 * cells ==> ws[t] <= u32::MAX as u64)
    &&& (forall|t: int| 2 + 3 * cells <= t < 2 + 6 * cells ==> ws[t] < 256)
    &&& (forall|t: int| 2 + 6 * cells <= t < 2 + 6 * cells + w ==> ws[t] <= h as u64)
    &&& (forall|t: int| 2 + 6 * cells + w <= t < 2 + 6 * cells + w + cells ==> ws[t] < 65536)
}

/// Decodes a grid from bytes. A successful decode is well formed, and its
/// content is exactly what the byte stream parses to; a failed decode means
/// the byte stream parses to nothing.
#[verifier::rlimit(100)]
pub fn decode_tile_map(b: &Vec<u8>) -> (r: Option<TileMap>)
    ensures
        match r {
            Some(m2) => m2.wf() && spec_decode(b@) == Some(spec_view(m2)),
            None => spec_decode(b@) is None,
        },
{
    let n = b.len();
    if n % 8 != 0 {
        return None;
    }
    let q = n / 8;
    let mut words: Vec<u64> = Vec::new();
    let mut k: usize = 0;
    while k < q
        invariant
            n == b@.len(),
            q == n as int / 8,
            k <= q,
            words@.len() == k,
            forall|j: int| 0 <= j < k ==> words@[j] == dec_u64_at(b@, 8 * j),
        decreases q - k,
    {
        proof {
            assert(8 * (k as int) + 8 <= n) by (nonlinear_arith)
                requires
                    0 <= k < q,
                    q == n as int / 8,
            ;
        }
        let w = read_u64(b, 8 * k);
        words.push(w);
        k += 1;
    }
    proof {
        assert(words@ =~= dec_words(b@));
    }
    let ghost ws = dec_words(b@);
    if words.len() < 2 {
        return None;
    }
    let w_word = words[0];
    let h_word = words[1];
    if w_word == 0 || w_word > u32::MAX as u64 || h_word == 0 || h_word > u32::MAX as u64 {
        return None;
    }
    let width = w_word as usize;
    let height = h_word as usize;
    if width > usize::MAX / 3 / height {
        proof {
            assert(3 * ((width as int) * (height as int)) > usize::MAX) by (nonlinear_arith)
                requires
                    1 <= height,
                    1 <= width,
                    width > usize::MAX as int / 3 / (height as int),
            ;
        }
        return None;
    }
    proof {
        assert(3 * ((width as int) * (height as int)) <= usize::MAX) by (nonlinear_arith)
            requires
                1 <= height,
                width <= usize::MAX as int / 3 / (height as int),
        ;
        assert((width as int) * (height as int) <= usize::MAX) by (nonlinear_arith)
            requires
                3 * ((width as int) * (height as int)) <= usize::MAX,
                1 <= width,
                1 <= height,
        ;
    }
    let cells = width * height;
    let len3 = 3 * cells;
    let fixed128: u128 = 2 + (len3 as u128) + (len3 as u128) + (width as u128) + (cells as u128)
        + 1;
    if (words.len() as u128) < fixed128 {
        return None;
    }
    let fixed = fixed128 as usize;
    let total = words.len();
    proof {
        assert(header_ok(b@, ws, width as int, height as int));
    }
    let mut tiles: Vec<u32> = Vec::new();
    let mut i: usize = 0;
    while i < len3
        invariant
            header_ok(b@, ws, width as int, height as int),
            words@ == ws,
            total == words@.len(),
            len3 == 3 * ((width as int) * (height as int)),
            i <= len3,
            tiles@.len() == i,
            forall|j: int| 0 <= j < i ==> tiles@[j] == ws[2 + j] as u32,
            forall|t: int| 2 <= t < 2 + i ==> ws[t] <= u32::MAX as u64,
        decreases len3 - i,
    {
        let v = words[2 + i];
        if v > u32::MAX as u64 {
            return None;
        }
        tiles.push(v as u32);
        i += 1;
    }
    let mut lighting: Vec<u8> = Vec::new();
    let mut i: usize = 0;
    while i < len3
        invariant
            header_ok(b@, ws, width as int, height as int),
            words@ == ws,
            total == words@.len(),
            len3 == 3 * ((width as int) * (height as int)),
            i <= len3,
            lighting@.len() == i,
            forall|t: int| 2 <= t < 2 + len3 ==> ws[t] <= u32::MAX as u64,
            forall|j: int| 0 <= j < i ==> lighting@[j] == ws[2 + len3 + j] as u8,
            forall|t: int| 2 + len3 <= t < 2 + len3 + i ==> ws[t] < 256,
        decreases len3 - i,
    {
        let v = words[2 + len3 + i];
        if v >= 256 {
            return None;
        }
        lighting.push(v as u8);
        i += 1;
    }
    let base_sky = 2 + len3 + len3;
    let mut sky: Vec<u32> = Vec::new();
    let mut i: usize = 0;
    while i < width
        invariant
            header_ok(b@, ws, width as int, height as int),
            words@ == ws,
            total == words@.len(),
            base_sky == 2 + len3 + len3,
            len3 == 3 * ((width as int) * (height as int)),
            i <= width,
            sky@.len() == i,
            forall|t: int| 2 <= t < 2 + len3 ==> ws[t] <= u32::MAX as u64,
            forall|t: int| 2 + len3 <= t < 2 + 2 * len3 ==> ws[t] < 256,
            forall|j: int| 0 <= j < i ==> sky@[j] == ws[base_sky + j] as u32,
            forall|t: int| base_sky <= t < base_sky + i ==> ws[t] <= height as u64,
        decreases width - i,
    {
        let v = words[base_sky + i];
        if v > height as u64 {
            return None;
        }
        sky.push(v as u32);
        i += 1;
    }
    let base_mini = base_sky + width;
    let mut mini: Vec<u16> = Vec::new();
    let mut i: usize = 0;
    while i < cells
        invariant
            header_ok(b@, ws, width as int, height as int),
            words@ == ws,
            total == words@.len(),
            base_sky == 2 + len3 + len3,
            base_mini == base_sky + width,
            len3 == 3 * ((width as int) * (height as int)),
            cells == (width as int) * (height as int),
            i <= cells,
            mini@.len() == i,
            forall|t: int| 2 <= t < 2 + len3 ==> ws[t] <= u32::MAX as u64,
            forall|t: int| 2 + len3 <= t < 2 + 2 * len3 ==> ws[t] < 256,
            forall|t: int| base_sky <= t < base_sky + width ==> ws[t] <= height as u64,
            forall|j: int| 0 <= j < i ==> mini@[j] == ws[base_mini + j] as u16,
            forall|t: int| base_mini <= t < base_mini + i ==> ws[t] < 65536,
        decreases cells - i,
    {
        let v = words[base_mini + i];
        if v >= 65536 {
            return None;
        }
        mini.push(v as u16);
        i += 1;
    }
    proof {
        assert(sections_ok(ws, width as int, height as int));
    }
    let count = words[fixed - 1];
    let mut entity_lights: Vec<(String, EntityLight)> = Vec::new();
    let mut pos: usize = fixed;
    let mut k: u64 = 0;
    while k < count
        invariant
            header_ok(b@, ws, width as int, height as int),
            sections_ok(ws, width as int, height as int),
            words@ == ws,
            total == words@.len(),
            fixed == 2 + 3 * ((width as int) * (height as int)) + 3 * ((width as int) * (
            height as int)) + width + (width as int) * (height as int) + 1,
            count == ws[fixed - 1],
            fixed <= pos <= total,
            k <= count,
            entity_lights@.len() == k,
            dec_entities(ws, fixed as int, k as int) == Some(
                (Seq::new(k as nat, |i: int| entity_view(entity_lights@[i])), pos as int),
            ),
        decreases count - k,
    {
        if pos >= total {
            proof {
                entities_parse_fails(ws, fixed as int, k as int, count as int, pos as int);
            }
            return None;
        }
        let nlen_w = words[pos];
        let remaining = total - pos - 1;
        if remaining < 6 || nlen_w > (remaining - 6) as u64 {
            proof {
                entities_parse_fails(ws, fixed as int, k as int, count as int, pos as int);
            }
            return None;
        }
        let nlen = nlen_w as usize;
        let mut nbytes: Vec<u8> = Vec::new();
        let mut j: usize = 0;
        let mut name_bad = false;
        while j < nlen
            invariant
                words@ == ws,
                total == words@.len(),
                pos + 1 + nlen + 6 <= total,
                j <= nlen,
                !name_bad ==> nbytes@.len() == j,
                !name_bad ==> (forall|t: int| 0 <= t < j ==> nbytes@[t] == ws[pos + 1 + t] as u8),
                !name_bad ==> (forall|t: int| pos + 1 <= t < pos + 1 + j ==> ws[t] < 256),
                name_bad ==> (exists|t: int| pos + 1 <= t < pos + 1 + nlen && ws[t] >= 256),
            decreases nlen - j,
        {
            let v = words[pos + 1 + j];
            if v >= 256 {
                name_bad = true;
                proof {
                    assert(pos + 1 <= pos + 1 + j < pos + 1 + nlen && ws[pos + 1 + j as int]
                        >= 256);
                }
                j = nlen;
            } else {
                nbytes.push(v as u8);
                j += 1;
            }
        }
        if name_bad {
            proof {
                entities_parse_fails(ws, fixed as int, k as int, count as int, pos as int);
            }
            return None;
        }
        let ghost nb_view = nbytes@;
        let name_opt = string_from_utf8(nbytes);
        let name = match name_opt {
            Some(s) => s,
            None => {
                proof {
                    assert(Seq::new((nlen_w as u64) as nat, |t: int| ws[pos + 1 + t] as u8)
                        =~= nb_view);
                    entities_parse_fails(ws, fixed as int, k as int, count as int, pos as int);
                }
                return None;
            },
        };
        let p6 = pos + 1 + nlen;
        let red_w = words[p6 + 2];
        let green_w = words[p6 + 3];
        let blue_w = words[p6 + 4];
        let strength_w = words[p6 + 5];
        if red_w >= 256 || green_w >= 256 || blue_w >= 256 || strength_w > u32::MAX as u64 {
            proof {
                assert(Seq::new((nlen_w as u64) as nat, |t: int| ws[pos + 1 + t] as u8)
                    =~= nb_view);
                entities_parse_fails(ws, fixed as int, k as int, count as int, pos as int);
            }
            return None;
        }
        let px = words[p6] as i64;
        let py = words[p6 + 1] as i64;
        let light = EntityLight::new(
            (px, py),
            (red_w as u8, green_w as u8, blue_w as u8, strength_w as u32),
        );
        proof {
            assert(Seq::new((nlen_w as u64) as nat, |t: int| ws[pos + 1 + t] as u8) =~= nb_view);
            vstd::utf8::encode_utf8_decode_utf8(name@);
            assert(dec_entity(ws, pos as int) == Some(
                (entity_view((name, light)), pos + 1 + nlen + 6),
            ));
        }
        let ghost prev_lights = entity_lights@;
        entity_lights.push((name, light));
        proof {
            assert(Seq::new((k + 1) as nat, |i: int| entity_view(entity_lights@[i])) =~= Seq::new(
                k as nat,
                |i: int| entity_view(prev_lights[i]),
            ).push(entity_view((name, light))));
        }
        pos = p6 + 6;
        k += 1;
    }
    if pos != total {
        return None;
    }
    let mini_map = MiniMap { lighting: mini, map_width: width, map_height: height };
    let m2 = TileMap {
        width,
        height,
        tiles,
        lighting,
        sky_light: sky,
        entity_lights,
        mini_map,
    };
    proof {
        assert(Seq::new((3 * ((width as int) * (height as int))) as nat, |i: int| ws[2 + i] as u32)
            =~= m2.tiles@);
        assert(Seq::new(
            (3 * ((width as int) * (height as int))) as nat,
            |i: int| ws[2 + 3 * ((width as int) * (height as int)) + i] as u8,
        ) =~= m2.lighting@);
        assert(Seq::new((width as int) as nat, |i: int| ws[2 + 6 * ((width as int) * (
        height as int)) + i] as u32) =~= m2.sky_light@);
        assert(Seq::new(((width as int) * (height as int)) as nat, |i: int| ws[2 + 6 * ((
        width as int) * (height as int)) + width + i] as u16) =~= m2.mini_map.lighting@);
        assert(spec_decode(b@) == Some(spec_view(m2)));
    }
    Some(m2)
}

/// Appends a word to a byte stream, little-endian.
fn write_u64(out: &mut Vec<u8>, v: u64)
    ensures
        final(out)@ == old(out)@ + enc_u64(v),
{
    out.push((v & 0xff) as u8);
    out.push(((v >> 8) & 0xff) as u8);
    out.push(((v >> 16) & 0xff) as u8);
    out.push(((v >> 24) & 0xff) as u8);
    out.push(((v >> 32) & 0xff) as u8);
    out.push(((v >> 40) & 0xff) as u8);
    out.push(((v >> 48) & 0xff) as u8);
    out.push(((v >> 56) & 0xff) as u8);
    proof {
        assert(out@ =~= old(out)@ + enc_u64(v));
    }
}

/// Reads the word stored at byte offset `i`.
fn read_u64(b: &Vec<u8>, i: usize) -> (r: u64)
    requires
        i + 8 <= b@.len(),
    ensures
        r == dec_u64_at(b@, i as int),
{
    let n = b.len();
    (b[i] as u64) | ((b[i + 1] as u64) << 8) | ((b[i + 2] as u64) << 16) | ((b[i + 3] as u64)
        << 24) | ((b[i + 4] as u64) << 32) | ((b[i + 5] as u64) << 40) | ((b[i + 6] as u64) << 48)
        | ((b[i + 7] as u64) << 56)
}

} // verus!
