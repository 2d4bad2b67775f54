//! Inspector metadata about a loaded BSP: one summary line per lump, the
//! textures that could not be found, and how many entities of each class
//! the map holds.
use vstd::prelude::*;
use crate::bsp::compile::{resolved_view, ResolvedTexture, ResolvedView};
use crate::bsp::entity::{entities_view, Entity, EntityView};
use crate::bsp::format::{
    lump_at, lump_name, raw_bsp_error, raw_bsp_ok, spec_lump_name, Header, LumpId, RawBsp,
};
use crate::keyed::{
    insert_pos, key_get, key_index_from, key_insert, keys_sorted, lemma_key_index,
    lemma_key_insert_get, lemma_key_insert_sorted,
};
use crate::text::{str_eq, str_lt, strings_view};

verus! {

/// `(name, offset, length, element_count)` of one lump.
#[derive(Clone, Debug)]
pub struct LumpSummary {
    pub name: String,
    pub offset: u32,
    pub length: u32,
    pub count: u32,
}

/// The lump in directory slot `k`.
pub open spec fn spec_lump_at_slot(k: int) -> LumpId {
    if k == 0 { LumpId::Entities }
    else if k == 1 { LumpId::Planes }
    else if k == 2 { LumpId::Textures }
    else if k == 3 { LumpId::Vertices }
    else if k == 4 { LumpId::Visibility }
    else if k == 5 { LumpId::Nodes }
    else if k == 6 { LumpId::TexInfo }
    else if k == 7 { LumpId::Faces }
    else if k == 8 { LumpId::Lighting }
    else if k == 9 { LumpId::ClipNodes }
    else if k == 10 { LumpId::Leaves }
    else if k == 11 { LumpId::MarkSurfaces }
    else if k == 12 { LumpId::Edges }
    else if k == 13 { LumpId::SurfEdges }
    else { LumpId::Models }
}

/// The on-disk size of one element of a lump; byte-granular lumps count 1.
pub open spec fn spec_lump_stride(id: LumpId) -> u32 {
    match id {
        LumpId::Entities => 1,
        LumpId::Planes => 20,
        LumpId::Textures => 1,
        LumpId::Vertices => 12,
        LumpId::Visibility => 1,
        LumpId::Nodes => 24,
        LumpId::TexInfo => 40,
        LumpId::Faces => 20,
        LumpId::Lighting => 1,
        LumpId::ClipNodes => 8,
        LumpId::Leaves => 28,
        LumpId::MarkSurfaces => 2,
        LumpId::Edges => 4,
        LumpId::SurfEdges => 4,
        LumpId::Models => 64,
    }
}

/// The summary of the lump in slot `k` of a header.
pub open spec fn spec_lump_summary(h: Header, k: int) -> (Seq<char>, u32, u32, u32) {
    let id = spec_lump_at_slot(k);
    let l = h.lumps@[k];
    (spec_lump_name(id), l.offset, l.length, l.length / spec_lump_stride(id))
}

/// The count the inspector gives a lump: its length over its record size.
proof fn lemma_summary_count(h: Header, k: int, stride: u32)
    requires
        0 <= k < 15,
        spec_lump_stride(spec_lump_at_slot(k)) == stride,
    ensures
        spec_lump_summary(h, k).3 == h.lumps@[k].length / stride,
{
}

/// The inspector's record count of every lump the loader decodes is the
/// number of records the loader reads from it: planes, vertices, texinfos,
/// faces, edges, surfedges and models; for the byte lumps (textures,
/// lighting) it is their byte length.
#[verifier::spinoff_prover]
pub proof fn lemma_counts_match_loaded_records(raw: RawBsp, data: Seq<u8>)
    requires
        raw_bsp_error(data) is None,
        raw_bsp_ok(raw, data),
    ensures
        spec_lump_summary(raw.header, 1).3 == raw.planes@.len(),
        spec_lump_summary(raw.header, 2).3 == raw.textures_lump@.len(),
        spec_lump_summary(raw.header, 3).3 == raw.vertices@.len(),
        spec_lump_summary(raw.header, 6).3 == raw.texinfos@.len(),
        spec_lump_summary(raw.header, 7).3 == raw.faces@.len(),
        spec_lump_summary(raw.header, 8).3 == raw.lighting@.len(),
        spec_lump_summary(raw.header, 12).3 == raw.edges@.len(),
        spec_lump_summary(raw.header, 13).3 == raw.surf_edges@.len(),
        spec_lump_summary(raw.header, 14).3 == raw.models@.len(),
{
    let h = raw.header;
    assert(h.lumps@[1] == lump_at(data, 1));
    assert(h.lumps@[2] == lump_at(data, 2));
    assert(h.lumps@[3] == lump_at(data, 3));
    assert(h.lumps@[6] == lump_at(data, 6));
    assert(h.lumps@[7] == lump_at(data, 7));
    assert(h.lumps@[8] == lump_at(data, 8));
    assert(h.lumps@[12] == lump_at(data, 12));
    assert(h.lumps@[13] == lump_at(data, 13));
    assert(h.lumps@[14] == lump_at(data, 14));
    lemma_summary_count(h, 1, 20);
    lemma_summary_count(h, 2, 1);
    lemma_summary_count(h, 3, 12);
    lemma_summary_count(h, 6, 40);
    lemma_summary_count(h, 7, 20);
    lemma_summary_count(h, 8, 1);
    lemma_summary_count(h, 12, 4);
    lemma_summary_count(h, 13, 4);
    lemma_summary_count(h, 14, 64);
    assert(h.lumps@[2].length / 1u32 == h.lumps@[2].length);
    assert(h.lumps@[8].length / 1u32 == h.lumps@[8].length);
}

/// The lumps the loader does not decode are counted in GoldSrc's on-disk
/// records too: 24-byte nodes (`dnode_t`), 8-byte clip nodes
/// (`dclipnode_t`), 28-byte leaves (`dleaf_t`) and 2-byte mark-surface
/// indices, with visibility and entities counted in bytes.
pub proof fn lemma_undecoded_lump_counts(h: Header)
    ensures
        spec_lump_summary(h, 0).3 == h.lumps@[0].length,
        spec_lump_summary(h, 4).3 == h.lumps@[4].length,
        spec_lump_summary(h, 5).3 == h.lumps@[5].length / 24,
        spec_lump_summary(h, 9).3 == h.lumps@[9].length / 8,
        spec_lump_summary(h, 10).3 == h.lumps@[10].length / 28,
        spec_lump_summary(h, 11).3 == h.lumps@[11].length / 2,
{
    lemma_summary_count(h, 0, 1);
    lemma_summary_count(h, 4, 1);
    lemma_summary_count(h, 5, 24);
    lemma_summary_count(h, 9, 8);
    lemma_summary_count(h, 10, 28);
    lemma_summary_count(h, 11, 2);
    assert(h.lumps@[0].length / 1u32 == h.lumps@[0].length);
    assert(h.lumps@[4].length / 1u32 == h.lumps@[4].length);
}

/// The lump in directory slot `k`.
pub fn lump_at_slot(k: usize) -> (id: LumpId)
    requires
        k < 15,
    ensures
        id == spec_lump_at_slot(k as int),
{
    match k {
        0 => LumpId::Entities,
        1 => LumpId::Planes,
        2 => LumpId::Textures,
        3 => LumpId::Vertices,
        4 => LumpId::Visibility,
        5 => LumpId::Nodes,
        6 => LumpId::TexInfo,
        7 => LumpId::Faces,
        8 => LumpId::Lighting,
        9 => LumpId::ClipNodes,
        10 => LumpId::Leaves,
        11 => LumpId::MarkSurfaces,
        12 => LumpId::Edges,
        13 => LumpId::SurfEdges,
        _ => LumpId::Models,
    }
}

/// The on-disk size of one element of a lump.
pub fn lump_stride(id: LumpId) -> (r: u32)
    ensures
        r == spec_lump_stride(id),
        r > 0,
{
    match id {
        LumpId::Entities => 1,
        LumpId::Planes => 20,
        LumpId::Textures => 1,
        LumpId::Vertices => 12,
        LumpId::Visibility => 1,
        LumpId::Nodes => 24,
        LumpId::TexInfo => 40,
        LumpId::Faces => 20,
        LumpId::Lighting => 1,
        LumpId::ClipNodes => 8,
        LumpId::Leaves => 28,
        LumpId::MarkSurfaces => 2,
        LumpId::Edges => 4,
        LumpId::SurfEdges => 4,
        LumpId::Models => 64,
    }
}

/// One summary per lump, in directory order: its name, where it lies, and
/// how many whole elements of its record size it holds.
pub fn lump_summaries(header: &Header) -> (r: Vec<LumpSummary>)
    ensures
        r@.len() == 15,
        forall|k: int|
            0 <= k < 15 ==> (#[trigger] r@[k]).name@ == spec_lump_summary(*header, k).0
                && r@[k].offset == spec_lump_summary(*header, k).1
                && r@[k].length == spec_lump_summary(*header, k).2
                && r@[k].count == spec_lump_summary(*header, k).3,
{
    let mut out: Vec<LumpSummary> = Vec::new();
    let mut k: usize = 0;
    while k < 15
        invariant
            k <= 15,
            out@.len() == k,
            forall|j: int|
                0 <= j < k ==> (#[trigger] out@[j]).name@ == spec_lump_summary(*header, j).0
                    && out@[j].offset == spec_lump_summary(*header, j).1
                    && out@[j].length == spec_lump_summary(*header, j).2
                    && out@[j].count == spec_lump_summary(*header, j).3,
        decreases 15 - k,
    {
        let id = lump_at_slot(k);
        let l = header.lumps[k];
        let stride = lump_stride(id);
        out.push(
            LumpSummary {
                name: String::from_str(lump_name(id)),
                offset: l.offset,
                length: l.length,
                count: l.length / stride,
            },
        );
        k = k + 1;
    }
    out
}

/// The names of the textures that were not found, in table order.
pub open spec fn spec_missing_names(ts: Seq<ResolvedView>) -> Seq<Seq<char>>
    decreases ts.len(),
{
    if ts.len() == 0 {
        Seq::empty()
    } else if ts.last().found {
        spec_missing_names(ts.drop_last())
    } else {
        spec_missing_names(ts.drop_last()).push(ts.last().name)
    }
}

/// The names of the textures that were not found, in table order.
pub fn missing_texture_names(textures: &[ResolvedTexture]) -> (r: Vec<String>)
    ensures
        strings_view(r@) == spec_missing_names(resolved_view(textures@)),
{
    let ghost all = resolved_view(textures@);
    let mut out: Vec<String> = Vec::new();
    let mut i: usize = 0;
    assert(all.take(0) =~= Seq::<ResolvedView>::empty());
    assert(strings_view(out@) =~= Seq::<Seq<char>>::empty());
    while i < textures.len()
        invariant
            all == resolved_view(textures@),
            i <= textures.len(),
            strings_view(out@) == spec_missing_names(all.take(i as int)),
        decreases textures.len() - i,
    {
        assert(all.take(i as int + 1).drop_last() =~= all.take(i as int));
        if !textures[i].found {
            let ghost before = strings_view(out@);
            out.push(textures[i].name.as_str().to_owned());
            assert(strings_view(out@) =~= before.push(all[i as int].name));
        }
        i = i + 1;
    }
    assert(all.take(textures.len() as int) =~= all);
    out
}

/// The name an entity is tallied under: its class, or `<none>` when it has
/// no class.
pub open spec fn class_key(e: EntityView) -> Seq<char> {
    if e.class_name.len() == 0 {
        "<none>"@
    } else {
        e.class_name
    }
}

/// Count one more under `key`: an existing tally goes up by one, a new key
/// starts at one where it sorts.
pub open spec fn tally(p: Seq<(Seq<char>, nat)>, key: Seq<char>) -> Seq<(Seq<char>, nat)> {
    key_insert(
        p,
        key,
        match key_get(p, key) {
            Some(n) => n + 1,
            None => 1,
        },
    )
}

/// The per-class tally of a sequence of entities, sorted by class.
pub open spec fn class_counts(es: Seq<EntityView>) -> Seq<(Seq<char>, nat)>
    decreases es.len(),
{
    if es.len() == 0 {
        Seq::empty()
    } else {
        tally(class_counts(es.drop_last()), class_key(es.last()))
    }
}

/// How many of the entities are tallied under `key`.
pub open spec fn class_occurrences(es: Seq<EntityView>, key: Seq<char>) -> nat
    decreases es.len(),
{
    if es.len() == 0 {
        0
    } else {
        class_occurrences(es.drop_last(), key) + if class_key(es.last()) == key {
            1nat
        } else {
            0nat
        }
    }
}

/// The mathematical content of a tally table.
pub open spec fn counts_view(v: Seq<(String, usize)>) -> Seq<(Seq<char>, nat)> {
    Seq::new(v.len(), |i: int| (v[i].0@, v[i].1 as nat))
}

/// The class tally lists each class once, in sorted order, with the number
/// of entities of that class; a class no entity has is absent.
pub proof fn lemma_class_counts(es: Seq<EntityView>, key: Seq<char>)
    ensures
        keys_sorted(class_counts(es)),
        key_get(class_counts(es), key) == if class_occurrences(es, key) > 0 {
            Some(class_occurrences(es, key))
        } else {
            None::<nat>
        },
    decreases es.len(),
{
    if es.len() > 0 {
        let rest = es.drop_last();
        let p = class_counts(rest);
        let k = class_key(es.last());
        lemma_class_counts(rest, key);
        lemma_class_counts(rest, k);
        let v: nat = match key_get(p, k) {
            Some(n) => n + 1,
            None => 1,
        };
        lemma_key_insert_sorted(p, k, v);
        lemma_key_insert_get(p, k, v, key);
    }
}

/// Where `key` is in a tally table, if it is there.
fn find_key(counts: &Vec<(String, usize)>, key: &str) -> (r: Option<usize>)
    ensures
        match r {
            Some(j) => key_index_from(counts_view(counts@), key@, 0) == Some(j as int),
            None => key_index_from(counts_view(counts@), key@, 0) is None,
        },
{
    let ghost p = counts_view(counts@);
    let mut j: usize = 0;
    while j < counts.len()
        invariant
            p == counts_view(counts@),
            j <= counts.len(),
            key_index_from(p, key@, 0) == key_index_from(p, key@, j as int),
        decreases counts.len() - j,
    {
        if str_eq(counts[j].0.as_str(), key) {
            return Some(j);
        }
        j = j + 1;
    }
    None
}

/// Where a new `key` goes in a tally table.
fn sorted_pos(counts: &Vec<(String, usize)>, key: &str) -> (r: usize)
    ensures
        r as int == insert_pos(counts_view(counts@), key@, 0),
        r <= counts.len(),
{
    let ghost p = counts_view(counts@);
    let mut j: usize = 0;
    while j < counts.len() && str_lt(counts[j].0.as_str(), key)
        invariant
            p == counts_view(counts@),
            j <= counts.len(),
            insert_pos(p, key@, 0) == insert_pos(p, key@, j as int),
        decreases counts.len() - j,
    {
        j = j + 1;
    }
    j
}

/// How many entities there are of each class (`<none>` for those without
/// one), sorted by class.
pub fn entity_class_counts(entities: &[Entity]) -> (r: Vec<(String, usize)>)
    ensures
        counts_view(r@) == class_counts(entities_view(entities@)),
{
    let ghost es = entities_view(entities@);
    let mut out: Vec<(String, usize)> = Vec::new();
    let mut i: usize = 0;
    assert(es.take(0) =~= Seq::<EntityView>::empty());
    assert(counts_view(out@) =~= Seq::<(Seq<char>, nat)>::empty());
    while i < entities.len()
        invariant
            es == entities_view(entities@),
            i <= entities.len(),
            counts_view(out@) == class_counts(es.take(i as int)),
            forall|m: int| 0 <= m < out@.len() ==> #[trigger] out@[m].1 <= i,
        decreases entities.len() - i,
    {
        let name = entities[i].class_name.as_str();
        let key: &str = if name.is_empty() {
            "<none>"
        } else {
            name
        };
        assert(key@ == class_key(es[i as int]));
        assert(es.take(i as int + 1).drop_last() =~= es.take(i as int));
        let ghost p = counts_view(out@);
        proof {
            lemma_key_index(p, key@, 0);
        }
        match find_key(&out, key) {
            Some(j) => {
                let n = out[j].1;
                out.set(j, (key.to_owned(), n + 1));
                assert(counts_view(out@) =~= p.update(j as int, (key@, (n + 1) as nat)));
            },
            None => {
                let pos = sorted_pos(&out, key);
                let ghost before = out@;
                out.insert(pos, (key.to_owned(), 1));
                assert(counts_view(out@) =~= p.insert(pos as int, (key@, 1nat)));
                assert forall|m: int| 0 <= m < out@.len() implies #[trigger] out@[m].1 <= i + 1 by {
                    if m > pos {
                        assert(out@[m] == before[m - 1]);
                    } else if m < pos {
                        assert(out@[m] == before[m]);
                    }
                }
            },
        }
        i = i + 1;
    }
    assert(es.take(entities.len() as int) =~= es);
    out
}

} // verus!
