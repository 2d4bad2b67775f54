//! The texture archives a map names: worldspawn's `wad` key holds a
//! `;`-separated list of paths, written with either slash.
use vstd::prelude::*;
use vstd::utf8::encode_utf8;
use crate::bsp::entity::{entities_from, entities_view, parse_entities, Entity, EntityView};
use crate::keyed::key_get;
use crate::bsp::format::RawBsp;
use crate::text::{char_is_whitespace, str_chars, str_eq, strings_view, white_space};

verus! {

/// The pieces of `s` between `;` separators, as `str::split(';')` yields
/// them: always at least one, empty pieces included.
pub open spec fn split_semicolons(s: Seq<char>) -> Seq<Seq<char>>
    decreases s.len(),
{
    if s.len() == 0 {
        seq![Seq::<char>::empty()]
    } else {
        let rest = split_semicolons(s.drop_last());
        if s.last() == ';' {
            rest.push(Seq::empty())
        } else {
            rest.update(rest.len() - 1, rest.last().push(s.last()))
        }
    }
}

/// Whether a piece is empty or all whitespace.
pub open spec fn is_blank(p: Seq<char>) -> bool {
    forall|i: int| 0 <= i < p.len() ==> white_space(#[trigger] p[i])
}

/// The final path component: what follows the last `/` or `\`.
pub open spec fn last_component(p: Seq<char>) -> Seq<char>
    decreases p.len(),
{
    if p.len() == 0 {
        p
    } else if p.last() == '/' || p.last() == '\\' {
        Seq::empty()
    } else {
        last_component(p.drop_last()).push(p.last())
    }
}

/// The file names of the non-blank pieces, in order.
pub open spec fn wad_file_names(pieces: Seq<Seq<char>>) -> Seq<Seq<char>>
    decreases pieces.len(),
{
    if pieces.len() == 0 {
        Seq::empty()
    } else if is_blank(pieces.last()) {
        wad_file_names(pieces.drop_last())
    } else {
        wad_file_names(pieces.drop_last()).push(last_component(pieces.last()))
    }
}

/// The position of the first entity of class `class`.
pub open spec fn first_of_class(es: Seq<EntityView>, class: Seq<char>, from: int) -> Option<int>
    decreases es.len() - from,
{
    if from < 0 || from >= es.len() {
        None
    } else if es[from].class_name == class {
        Some(from)
    } else {
        first_of_class(es, class, from + 1)
    }
}

/// The WAD file names a list of entities references: those of the `wad` key
/// of the first `worldspawn`, or none.
pub open spec fn spec_referenced_wads(es: Seq<EntityView>) -> Seq<Seq<char>> {
    match first_of_class(es, "worldspawn"@, 0) {
        None => Seq::empty(),
        Some(i) => match key_get(es[i].props, "wad"@) {
            None => Seq::empty(),
            Some(list) => wad_file_names(split_semicolons(list)),
        },
    }
}

/// Whether `c[from..to]` is all whitespace.
fn blank_range(c: &Vec<char>, from: usize, to: usize) -> (r: bool)
    requires
        from <= to <= c@.len(),
    ensures
        r == is_blank(c@.subrange(from as int, to as int)),
{
    let mut i = from;
    while i < to
        invariant
            from <= i <= to <= c@.len(),
            forall|j: int| from <= j < i ==> white_space(#[trigger] c@[j]),
        decreases to - i,
    {
        if !char_is_whitespace(c[i]) {
            assert(!white_space(c@.subrange(from as int, to as int)[i - from]));
            return false;
        }
        i = i + 1;
    }
    assert forall|j: int| 0 <= j < to - from implies white_space(
        #[trigger] c@.subrange(from as int, to as int)[j],
    ) by {
        assert(c@.subrange(from as int, to as int)[j] == c@[from + j]);
    }
    true
}

/// Where the last path component of `c[from..to]` starts.
fn last_component_start(c: &Vec<char>, from: usize, to: usize) -> (k: usize)
    requires
        from <= to <= c@.len(),
    ensures
        from <= k <= to,
        c@.subrange(k as int, to as int) == last_component(c@.subrange(from as int, to as int)),
{
    let mut j = to;
    while j > from && c[j - 1] != '/' && c[j - 1] != '\\'
        invariant
            from <= j <= to <= c@.len(),
            last_component(c@.subrange(from as int, to as int)) == last_component(
                c@.subrange(from as int, j as int),
            ) + c@.subrange(j as int, to as int),
        decreases j,
    {
        let ghost p = c@.subrange(from as int, j as int);
        assert(p.drop_last() =~= c@.subrange(from as int, j - 1));
        assert(c@.subrange(j - 1, to as int) =~= seq![p.last()] + c@.subrange(j as int, to as int));
        assert(last_component(c@.subrange(from as int, j - 1)).push(p.last()) + c@.subrange(
            j as int,
            to as int,
        ) =~= last_component(c@.subrange(from as int, j - 1)) + c@.subrange(j - 1, to as int));
        j = j - 1;
    }
    assert(last_component(c@.subrange(from as int, j as int)) =~= Seq::<char>::empty());
    assert(Seq::<char>::empty() + c@.subrange(j as int, to as int) =~= c@.subrange(
        j as int,
        to as int,
    ));
    j
}

/// The file names in a `;`-separated WAD list: each non-blank piece's last
/// path component, kept as written (surrounding spaces included).
pub fn wad_names_in(list: &str) -> (r: Vec<String>)
    ensures
        strings_view(r@) == wad_file_names(split_semicolons(list@)),
{
    let c = str_chars(list);
    let ghost s = list@;
    let mut out: Vec<String> = Vec::new();
    let ghost mut done: Seq<Seq<char>> = Seq::empty();
    let mut start: usize = 0;
    let mut i: usize = 0;
    assert(s.take(0) =~= Seq::<char>::empty());
    assert(split_semicolons(s.take(0)) =~= done.push(s.subrange(0, 0)));
    assert(strings_view(out@) =~= Seq::<Seq<char>>::empty());
    while i < c.len()
        invariant
            c@ == s,
            s == list@,
            start <= i <= s.len(),
            split_semicolons(s.take(i as int)) == done.push(s.subrange(start as int, i as int)),
            strings_view(out@) == wad_file_names(done),
        decreases s.len() - i,
    {
        let ghost piece = s.subrange(start as int, i as int);
        assert(s.take(i + 1).drop_last() =~= s.take(i as int));
        assert(s.take(i + 1).last() == s[i as int]);
        if c[i] == ';' {
            let blank = blank_range(&c, start, i);
            proof {
                assert(done.push(piece).drop_last() =~= done);
                assert(done.push(piece).last() == piece);
            }
            if !blank {
                let k = last_component_start(&c, start, i);
                let name = list.substring_char(k, i).to_owned();
                let ghost before = strings_view(out@);
                out.push(name);
                assert(strings_view(out@) =~= before.push(last_component(piece)));
            }
            proof {
                done = done.push(piece);
                assert(s.subrange((i + 1) as int, (i + 1) as int) =~= Seq::<char>::empty());
                assert(split_semicolons(s.take(i + 1)) =~= done.push(
                    s.subrange((i + 1) as int, (i + 1) as int),
                ));
            }
            start = i + 1;
        } else {
            proof {
                let rest = split_semicolons(s.take(i as int));
                assert(rest.last() == piece);
                assert(s.subrange(start as int, i + 1) =~= piece.push(s[i as int]));
                assert(rest.update(rest.len() - 1, piece.push(s[i as int])) =~= done.push(
                    s.subrange(start as int, i + 1),
                ));
            }
        }
        i = i + 1;
    }
    let ghost piece = s.subrange(start as int, s.len() as int);
    assert(s.take(s.len() as int) =~= s);
    proof {
        assert(done.push(piece).drop_last() =~= done);
        assert(done.push(piece).last() == piece);
    }
    let blank = blank_range(&c, start, c.len());
    if !blank {
        let k = last_component_start(&c, start, c.len());
        let name = list.substring_char(k, c.len()).to_owned();
        let ghost before = strings_view(out@);
        out.push(name);
        assert(strings_view(out@) =~= before.push(last_component(piece)));
    }
    out
}

/// The first entity of class `worldspawn`.
fn find_worldspawn(es: &Vec<Entity>) -> (r: Option<usize>)
    ensures
        match (r, first_of_class(entities_view(es@), "worldspawn"@, 0)) {
            (Some(i), Some(j)) => i == j,
            (None, None) => true,
            _ => false,
        },
        r matches Some(i) ==> i < es@.len(),
{
    let ghost v = entities_view(es@);
    let mut i: usize = 0;
    while i < es.len()
        invariant
            v == entities_view(es@),
            i <= es@.len(),
            first_of_class(v, "worldspawn"@, 0) == first_of_class(v, "worldspawn"@, i as int),
        decreases es@.len() - i,
    {
        if str_eq(es[i].class_name.as_str(), "worldspawn") {
            return Some(i);
        }
        i = i + 1;
    }
    None
}

/// The WAD file names referenced by worldspawn's `wad` key.
pub fn referenced_wads(raw: &RawBsp) -> (r: Vec<String>)
    requires
        encode_utf8(raw.entities_text@).len() < usize::MAX,
    ensures
        strings_view(r@) == spec_referenced_wads(
            entities_from(encode_utf8(raw.entities_text@), 0, Seq::empty()),
        ),
{
    let ents = parse_entities(raw.entities_text.as_str());
    let ghost v = entities_view(ents@);
    match find_worldspawn(&ents) {
        None => Vec::new(),
        Some(i) => {
            assert(v[i as int] == ents@[i as int]@);
            match ents[i].get("wad") {
                None => Vec::new(),
                Some(list) => wad_names_in(list),
            }
        },
    }
}

} // verus!
