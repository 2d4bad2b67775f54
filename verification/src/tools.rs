//! Helpers of the asset tools: choosing a pak entry's kind from a file name
//! and serializing index buffers (in memory order) and a lightmap atlas.
use vstd::prelude::*;
use vstd::utf8::encode_utf8;
use crate::glb::u32s_le;
use crate::le::{push_u32_le, u32_le};
use crate::pak::AssetKind;
use crate::text::{ascii_lower, bytes_end_with, bytes_have_suffix, str_to_ascii_lowercase};
use crate::texture::TextureData;

verus! {

/// The kind a packed file gets from its (case-insensitive) extension:
/// glTF models are skins, PNGs textures, `.p3dworld` worlds, anything else raw.
pub open spec fn spec_kind_for(name: Seq<char>) -> AssetKind {
    let l = encode_utf8(ascii_lower(name));
    if bytes_end_with(l, encode_utf8(".glb"@)) || bytes_end_with(l, encode_utf8(".gltf"@)) {
        AssetKind::Skin
    } else if bytes_end_with(l, encode_utf8(".png"@)) {
        AssetKind::Texture
    } else if bytes_end_with(l, encode_utf8(".p3dworld"@)) {
        AssetKind::World
    } else {
        AssetKind::Raw
    }
}

/// The asset kind for a file name, by extension (case-insensitive).
pub fn kind_for(name: &str) -> (r: AssetKind)
    ensures
        r == spec_kind_for(name@),
{
    let lower = str_to_ascii_lowercase(name);
    let l = lower.as_str().as_bytes();
    if bytes_have_suffix(l, ".glb".as_bytes()) || bytes_have_suffix(l, ".gltf".as_bytes()) {
        AssetKind::Skin
    } else if bytes_have_suffix(l, ".png".as_bytes()) {
        AssetKind::Texture
    } else if bytes_have_suffix(l, ".p3dworld".as_bytes()) {
        AssetKind::World
    } else {
        AssetKind::Raw
    }
}

/// A lightmap atlas as bytes: width and height as `u32` LE, then the RGBA.
pub fn atlas_bytes(t: &TextureData) -> (r: Vec<u8>)
    ensures
        r@ == u32_le(t.width) + u32_le(t.height) + t.rgba@,
{
    let mut out: Vec<u8> = Vec::new();
    push_u32_le(&mut out, t.width);
    push_u32_le(&mut out, t.height);
    let mut pixels = vstd::slice::slice_to_vec(t.rgba.as_slice());
    out.append(&mut pixels);
    assert(out@ =~= u32_le(t.width) + u32_le(t.height) + t.rgba@);
    out
}


/// The four big-endian bytes of `v`.
pub open spec fn u32_be(v: u32) -> Seq<u8> {
    seq![
        ((v / 0x100_0000) % 0x100) as u8,
        ((v / 0x1_0000) % 0x100) as u8,
        ((v / 0x100) % 0x100) as u8,
        (v % 0x100) as u8,
    ]
}

/// The big-endian bytes of a run of `u32`s.
pub open spec fn u32s_be(v: Seq<u32>) -> Seq<u8>
    decreases v.len(),
{
    if v.len() == 0 {
        Seq::empty()
    } else {
        u32s_be(v.drop_last()) + u32_be(v.last())
    }
}

/// `u32::to_ne_bytes`: the bytes of `v` in the machine's own byte order,
/// which is little- or big-endian; which of the two this machine uses is
/// left unsaid.
#[verifier::external_body]
fn u32_to_ne_bytes(v: u32) -> (r: [u8; 4])
    ensures
        r@ == u32_le(v) || r@ == u32_be(v),
{
    v.to_ne_bytes()
}

/// Append the big-endian bytes of `v`.
fn push_u32_be(out: &mut Vec<u8>, v: u32)
    ensures
        final(out)@ == old(out)@ + u32_be(v),
{
    out.push((v / 0x100_0000 % 0x100) as u8);
    out.push((v / 0x1_0000 % 0x100) as u8);
    out.push((v / 0x100 % 0x100) as u8);
    out.push((v % 0x100) as u8);
    assert(out@ =~= old(out)@ + u32_be(v));
}

/// An index buffer as its in-memory bytes: each `u32` in the machine's
/// byte order (little- or big-endian), in order.
pub fn u32_bytes(v: &[u32]) -> (r: Vec<u8>)
    ensures
        r@ == u32s_le(v@) || r@ == u32s_be(v@),
{
    let probe = u32_to_ne_bytes(1);
    assert(u32_le(1)[0] == 1u8 && u32_be(1)[0] == 0u8);
    let little = probe[0] == 1;
    let mut out: Vec<u8> = Vec::new();
    let mut k: usize = 0;
    while k < v.len()
        invariant
            k <= v@.len(),
            little ==> out@ == u32s_le(v@.take(k as int)),
            !little ==> out@ == u32s_be(v@.take(k as int)),
        decreases v@.len() - k,
    {
        if little {
            push_u32_le(&mut out, v[k]);
        } else {
            push_u32_be(&mut out, v[k]);
        }
        assert(v@.take(k + 1).drop_last() =~= v@.take(k as int));
        k = k + 1;
    }
    assert(v@.take(v@.len() as int) =~= v@);
    out
}

} // verus!
