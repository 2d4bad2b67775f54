//! Entity lump parsing. The lump is plain text: a sequence of
//! `{ "key" "value" ... }` blocks. Every key/value pair is kept verbatim so
//! inspection tools can show it; the triggers the game needs are extracted.
use vstd::prelude::*;
use vstd::utf8::encode_utf8;
use crate::keyed::{
    key_get, key_index_from, key_insert, keys_sorted, lemma_key_index, lemma_key_insert_sorted,
    insert_pos,
};
use crate::text::{bytes_have_prefix, str_eq, str_from_utf8, str_lt, string_from_utf8_lossy, utf8_lossy};

verus! {

broadcast use {vstd::utf8::encode_utf8_decode_utf8, vstd::utf8::encode_utf8_valid_utf8};

/// A raw entity: its classname plus all other key/value pairs, sorted by key
/// as `String`s order, each key once (a repeated key keeps its last value).
#[derive(Clone, Debug, Default)]
pub struct Entity {
    pub class_name: String,
    pub props: Vec<(String, String)>,
}

/// The mathematical content of an entity.
pub struct EntityView {
    pub class_name: Seq<char>,
    pub props: Seq<(Seq<char>, Seq<char>)>,
}

impl View for Entity {
    type V = EntityView;

    open spec fn view(&self) -> EntityView {
        EntityView {
            class_name: self.class_name@,
            props: Seq::new(self.props@.len(), |i: int| (self.props@[i].0@, self.props@[i].1@)),
        }
    }
}

/// The views of a sequence of entities.
pub open spec fn entities_view(es: Seq<Entity>) -> Seq<EntityView> {
    Seq::new(es.len(), |i: int| es[i]@)
}


/// The decimal value of a run of ASCII digits.
pub open spec fn decimal_value(d: Seq<char>) -> int
    decreases d.len(),
{
    if d.len() == 0 {
        0
    } else {
        decimal_value(d.drop_last()) * 10 + (d.last() as int - '0' as int)
    }
}

/// Whether every character is an ASCII digit.
pub open spec fn all_digits(d: Seq<char>) -> bool {
    forall|i: int| 0 <= i < d.len() ==> '0' <= #[trigger] d[i] <= '9'
}

/// `u32::from_str`: an optional `+` then one or more ASCII digits whose value
/// fits in 32 bits.
pub open spec fn spec_parse_u32(s: Seq<char>) -> Option<u32> {
    let d = if s.len() > 0 && s[0] == '+' {
        s.drop_first()
    } else {
        s
    };
    if d.len() > 0 && all_digits(d) && decimal_value(d) <= u32::MAX {
        Some(decimal_value(d) as u32)
    } else {
        None
    }
}

/// `str::parse::<u32>`: succeeds exactly on an optional `+` followed by one
/// or more ASCII digits whose value fits in a `u32`, with that value, as the
/// standard library documents for `u32::from_str`.
#[verifier::external_body]
fn parse_u32(s: &str) -> (r: Option<u32>)
    ensures
        r == spec_parse_u32(s@),
{
    s.parse::<u32>().ok()
}

/// A brush-model reference `*N`: the model index `N`, if the text is one.
pub open spec fn spec_brush_model_index(model: Seq<char>) -> Option<u32> {
    if model.len() > 0 && model[0] == '*' {
        spec_parse_u32(model.drop_first())
    } else {
        None
    }
}

impl Entity {
    /// The value stored under `key`.
    pub fn get(&self, key: &str) -> (r: Option<&str>)
        ensures
            match (r, key_get(self@.props, key@)) {
                (Some(x), Some(y)) => x@ == y,
                (None, None) => true,
                _ => false,
            },
    {
        let ghost p = self@.props;
        proof {
            lemma_key_index(p, key@, 0);
        }
        let mut i: usize = 0;
        while i < self.props.len()
            invariant
                p == self@.props,
                i <= p.len(),
                key_index_from(p, key@, 0) == key_index_from(p, key@, i as int),
            decreases p.len() - i,
        {
            if str_eq(self.props[i].0.as_str(), key) {
                return Some(self.props[i].1.as_str());
            }
            i = i + 1;
        }
        None
    }

    /// A brush-entity model reference like `"*3"` → model index 3.
    pub fn brush_model_index(&self) -> (r: Option<u32>)
        ensures
            r == match key_get(self@.props, "model"@) {
                Some(m) => spec_brush_model_index(m),
                None => None,
            },
    {
        let m = self.get("model")?;
        let bytes = m.as_bytes();
        if bytes.len() == 0 || bytes[0] != 0x2A {
            proof {
                lemma_first_char_ascii(m@, '*');
            }
            return None;
        }
        proof {
            lemma_first_char_ascii(m@, '*');
        }
        proof {
            lemma_drop_first_ascii(m@);
        }
        match str_from_utf8(&bytes[1..bytes.len()]) {
            Some(rest) => parse_u32(rest),
            None => None,
        }
    }

    /// Store `value` under `key`, replacing an earlier value.
    fn insert_prop(&mut self, key: String, value: String)
        ensures
            final(self)@.class_name == old(self)@.class_name,
            final(self)@.props == key_insert(old(self)@.props, key@, value@),
    {
        let ghost p = self@.props;
        proof {
            lemma_key_index(p, key@, 0);
        }
        let mut i: usize = 0;
        while i < self.props.len()
            invariant
                p == old(self)@.props,
                self.props@ == old(self).props@,
                self.class_name == old(self).class_name,
                i <= p.len(),
                key_index_from(p, key@, 0) == key_index_from(p, key@, i as int),
            decreases p.len() - i,
        {
            if str_eq(self.props[i].0.as_str(), key.as_str()) {
                let ghost kv = (key@, value@);
                self.props.set(i, (key, value));
                assert(self@.props =~= p.update(i as int, kv));
                return;
            }
            i = i + 1;
        }
        let mut j: usize = 0;
        while j < self.props.len() && str_lt(self.props[j].0.as_str(), key.as_str())
            invariant
                p == old(self)@.props,
                self.props@ == old(self).props@,
                self.class_name == old(self).class_name,
                j <= p.len(),
                insert_pos(p, key@, 0) == insert_pos(p, key@, j as int),
            decreases p.len() - j,
        {
            j = j + 1;
        }
        let ghost kv = (key@, value@);
        self.props.insert(j, (key, value));
        assert(self@.props =~= p.insert(j as int, kv));
    }
}

/// The first UTF-8 byte of a string is an ASCII character `c` exactly when
/// its first character is `c`.
pub proof fn lemma_first_char_ascii(s: Seq<char>, c: char)
    requires
        (c as u32) < 0x80,
    ensures
        (encode_utf8(s).len() > 0 && encode_utf8(s)[0] == c as u8) <==> (s.len() > 0 && s[0]
            == c),
{
    reveal_with_fuel(encode_utf8, 2);
    if s.len() > 0 {
        vstd::utf8::char_is_scalar(s[0]);
        let v = s[0] as u32;
        assert(encode_utf8(s) == vstd::utf8::encode_scalar(v) + encode_utf8(s.drop_first()));
        assert((encode_utf8(s)[0] == c as u8) <==> (s[0] == c)) by {
            lemma_scalar_first_byte(v, c as u32);
            vstd::utf8::char_u32_cast(s[0], v);
            vstd::utf8::char_u32_cast(c, c as u32);
        }
    }
}

proof fn lemma_scalar_first_byte(v: u32, c: u32)
    requires
        vstd::utf8::is_scalar(v),
        c < 0x80,
    ensures
        vstd::utf8::encode_scalar(v).len() > 0,
        (vstd::utf8::encode_scalar(v)[0] == c as u8) <==> v == c,
{
    if vstd::utf8::has_width_1_encoding(v) {
        assert(((v & 0x7F) as u8 == c as u8) <==> v == c) by (bit_vector)
            requires
                v <= 0x7F,
                c < 0x80,
        ;
    } else if vstd::utf8::has_width_2_encoding(v) {
        assert((0xC0u8 | ((v >> 6u32) & 0x1F) as u8) != c as u8) by (bit_vector)
            requires
                c < 0x80,
        ;
    } else if vstd::utf8::has_width_3_encoding(v) {
        assert((0xE0u8 | ((v >> 12u32) & 0x0F) as u8) != c as u8) by (bit_vector)
            requires
                c < 0x80,
        ;
    } else {
        assert((0xF0u8 | ((v >> 18u32) & 0x7) as u8) != c as u8) by (bit_vector)
            requires
                c < 0x80,
        ;
    }
}

/// Dropping a leading ASCII character drops its single byte.
pub proof fn lemma_drop_first_ascii(s: Seq<char>)
    requires
        s.len() > 0,
        (s[0] as u32) < 0x80,
    ensures
        encode_utf8(s.drop_first()) == encode_utf8(s).subrange(1, encode_utf8(s).len() as int),
{
    reveal_with_fuel(encode_utf8, 2);
    let v = s[0] as u32;
    assert(vstd::utf8::encode_scalar(v).len() == 1);
    assert(encode_utf8(s) == vstd::utf8::encode_scalar(v) + encode_utf8(s.drop_first()));
    assert(encode_utf8(s).subrange(1, encode_utf8(s).len() as int) =~= encode_utf8(
        s.drop_first(),
    ));
}

// ---------------------------------------------------------------------------
// Entity lump text
// ---------------------------------------------------------------------------

/// `u8::is_ascii_whitespace`: space, tab, line feed, form feed, carriage return.
pub open spec fn is_ascii_ws(c: u8) -> bool {
    c == 0x20 || c == 0x09 || c == 0x0A || c == 0x0C || c == 0x0D
}

/// The number of whitespace bytes starting at `i`.
pub open spec fn ws_run(b: Seq<u8>, i: int) -> nat
    decreases b.len() - i,
{
    if 0 <= i < b.len() && is_ascii_ws(b[i]) {
        1 + ws_run(b, i + 1)
    } else {
        0
    }
}

/// The number of bytes other than `c` starting at `i`.
pub open spec fn run_until(b: Seq<u8>, i: int, c: u8) -> nat
    decreases b.len() - i,
{
    if 0 <= i < b.len() && b[i] != c {
        1 + run_until(b, i + 1, c)
    } else {
        0
    }
}

/// A `"..."` token at `i`: its content bytes and the position after the
/// closing quote.
pub open spec fn quoted_at(b: Seq<u8>, i: int) -> Option<(Seq<u8>, int)> {
    if i < 0 || i >= b.len() || b[i] != 0x22 {
        None
    } else {
        let j = i + 1 + run_until(b, i + 1, 0x22);
        if j >= b.len() {
            None
        } else {
            Some((b.subrange(i + 1, j), j + 1))
        }
    }
}

/// Record one key/value pair: `classname` sets the class, any other key is
/// stored among the properties.
pub open spec fn entity_with(e: EntityView, k: Seq<u8>, v: Seq<u8>) -> EntityView {
    if utf8_lossy(k) == "classname"@ {
        EntityView { class_name: utf8_lossy(v), props: e.props }
    } else {
        EntityView { class_name: e.class_name, props: key_insert(e.props, utf8_lossy(k), utf8_lossy(v)) }
    }
}

/// Read the pairs of an entity body from `i` (just past its `{`): the entity
/// and where reading stopped. A `}` or the end of the text closes the body;
/// a token that is not a quoted string stops it where that token starts.
pub open spec fn body_at(b: Seq<u8>, i: int, e: EntityView) -> (EntityView, int)
    decreases b.len() + 1 - i,
{
    let i1 = i + ws_run(b, i);
    if i < 0 || i1 >= b.len() || b[i1] == 0x7D {
        (e, i1 + 1)
    } else {
        match quoted_at(b, i1) {
            None => (e, i1),
            Some((k, i2)) => {
                let i3 = i2 + ws_run(b, i2);
                match quoted_at(b, i3) {
                    None => (e, i3),
                    Some((v, i4)) => body_at(b, i4, entity_with(e, k, v)),
                }
            },
        }
    }
}

/// An entity with no class and no properties.
pub open spec fn empty_entity() -> EntityView {
    EntityView { class_name: Seq::empty(), props: Seq::empty() }
}

/// Parse every `{ ... }` block from `i` on, appending the non-empty entities
/// to `acc`.
pub open spec fn entities_from(b: Seq<u8>, i: int, acc: Seq<EntityView>) -> Seq<EntityView>
    decreases b.len() + 1 - i,
    via entities_from_decreases
{
    if i < 0 || i >= b.len() {
        acc
    } else {
        let j = i + run_until(b, i, 0x7B);
        if j >= b.len() {
            acc
        } else {
            let (e, k) = body_at(b, j + 1, empty_entity());
            let acc2 = if e.class_name.len() > 0 || e.props.len() > 0 {
                acc.push(e)
            } else {
                acc
            };
            entities_from(b, k, acc2)
        }
    }
}

#[via_fn]
proof fn entities_from_decreases(b: Seq<u8>, i: int, acc: Seq<EntityView>) {
    if 0 <= i < b.len() {
        let j = i + run_until(b, i, 0x7B);
        if j < b.len() {
            lemma_body_advances(b, j + 1, empty_entity());
        }
    }
}

/// Reading a body keeps an entity's keys strictly increasing.
proof fn lemma_body_sorted(b: Seq<u8>, i: int, e: EntityView)
    requires
        keys_sorted(e.props),
    ensures
        keys_sorted(body_at(b, i, e).0.props),
    decreases b.len() + 1 - i,
{
    let i1 = i + ws_run(b, i);
    if !(i < 0 || i1 >= b.len() || b[i1] == 0x7D) {
        lemma_body_advances(b, i, e);
        if let Some((k, i2)) = quoted_at(b, i1) {
            let i3 = i2 + ws_run(b, i2);
            if let Some((v, i4)) = quoted_at(b, i3) {
                if utf8_lossy(k) != "classname"@ {
                    lemma_key_insert_sorted(e.props, utf8_lossy(k), utf8_lossy(v));
                }
                lemma_body_sorted(b, i4, entity_with(e, k, v));
            }
        }
    }
}

/// Every parsed entity has its keys strictly increasing.
proof fn lemma_entities_from_sorted(b: Seq<u8>, i: int, acc: Seq<EntityView>)
    requires
        forall|k: int| 0 <= k < acc.len() ==> keys_sorted(#[trigger] acc[k].props),
    ensures
        forall|k: int|
            0 <= k < entities_from(b, i, acc).len() ==> keys_sorted(
                #[trigger] entities_from(b, i, acc)[k].props,
            ),
    decreases b.len() + 1 - i,
{
    if 0 <= i < b.len() {
        let j = i + run_until(b, i, 0x7B);
        if j < b.len() {
            lemma_body_advances(b, j + 1, empty_entity());
            let (e, k) = body_at(b, j + 1, empty_entity());
            lemma_body_sorted(b, j + 1, empty_entity());
            let acc2 = if e.class_name.len() > 0 || e.props.len() > 0 {
                acc.push(e)
            } else {
                acc
            };
            assert forall|m: int| 0 <= m < acc2.len() implies keys_sorted(#[trigger] acc2[m].props) by {
                if m < acc.len() {
                    assert(acc2[m] == acc[m]);
                }
            }
            lemma_entities_from_sorted(b, k, acc2);
            assert(entities_from(b, i, acc) == entities_from(b, k, acc2));
        }
    }
}

/// Each entity parsed from a lump has its keys in strictly increasing order:
/// every key occurs once and the pairs come out sorted by key.
pub proof fn lemma_parsed_props_sorted(text: Seq<char>)
    ensures
        forall|k: int|
            0 <= k < entities_from(encode_utf8(text), 0, Seq::empty()).len() ==> keys_sorted(
                #[trigger] entities_from(encode_utf8(text), 0, Seq::empty())[k].props,
            ),
{
    lemma_entities_from_sorted(encode_utf8(text), 0, Seq::empty());
}

/// The run lengths never reach past the end.
proof fn lemma_runs_bounded(b: Seq<u8>, i: int)
    requires
        0 <= i <= b.len(),
    ensures
        i + ws_run(b, i) <= b.len(),
        i + run_until(b, i, 0x22) <= b.len(),
        i + run_until(b, i, 0x7B) <= b.len(),
    decreases b.len() - i,
{
    if i < b.len() {
        lemma_runs_bounded(b, i + 1);
    }
}

/// Reading a body moves forward and stops at most one past the end.
proof fn lemma_body_advances(b: Seq<u8>, i: int, e: EntityView)
    requires
        0 <= i <= b.len(),
    ensures
        i <= body_at(b, i, e).1 <= b.len() + 1,
    decreases b.len() + 1 - i,
{
    lemma_runs_bounded(b, i);
    let i1 = i + ws_run(b, i);
    if i1 < b.len() && b[i1] != 0x7D {
        match quoted_at(b, i1) {
            None => {},
            Some((k, i2)) => {
                lemma_runs_bounded(b, i1 + 1);
                lemma_runs_bounded(b, i2);
                let i3 = i2 + ws_run(b, i2);
                match quoted_at(b, i3) {
                    None => {},
                    Some((v, i4)) => {
                        lemma_runs_bounded(b, i3 + 1);
                        lemma_body_advances(b, i4, entity_with(e, k, v));
                    },
                }
            },
        }
    }
}

/// The position after the whitespace at `i`.
fn skip_ws(bytes: &[u8], i: usize) -> (r: usize)
    requires
        i <= bytes@.len(),
    ensures
        r == i + ws_run(bytes@, i as int),
{
    let mut j = i;
    proof {
        lemma_runs_bounded(bytes@, i as int);
    }
    while j < bytes.len() && (bytes[j] == 0x20 || bytes[j] == 0x09 || bytes[j] == 0x0A || bytes[j]
        == 0x0C || bytes[j] == 0x0D)
        invariant
            i <= j <= bytes@.len(),
            i + ws_run(bytes@, i as int) == j + ws_run(bytes@, j as int),
        decreases bytes@.len() - j,
    {
        j = j + 1;
    }
    j
}

/// The position of the next `c` at or after `i`, or the end.
fn skip_until(bytes: &[u8], i: usize, c: u8) -> (r: usize)
    requires
        i <= bytes@.len(),
    ensures
        r == i + run_until(bytes@, i as int, c),
{
    let mut j = i;
    while j < bytes.len() && bytes[j] != c
        invariant
            i <= j <= bytes@.len(),
            i + run_until(bytes@, i as int, c) == j + run_until(bytes@, j as int, c),
        decreases bytes@.len() - j,
    {
        j = j + 1;
    }
    j
}

/// Read a `"..."` token starting at `i` (which must be the opening quote):
/// the unquoted content and the position just past the closing quote.
fn read_quoted(bytes: &[u8], i: usize) -> (r: Option<(String, usize)>)
    requires
        i <= bytes@.len(),
    ensures
        match (r, quoted_at(bytes@, i as int)) {
            (Some((s, n)), Some((k, m))) => s@ == utf8_lossy(k) && n == m,
            (None, None) => true,
            _ => false,
        },
{
    if i >= bytes.len() || bytes[i] != 0x22 {
        return None;
    }
    let start = i + 1;
    let j = skip_until(bytes, start, 0x22);
    if j >= bytes.len() {
        return None;
    }
    let s = string_from_utf8_lossy(&bytes[start..j]);
    Some((s, j + 1))
}

/// Read the pairs of one entity body starting just past its `{`.
fn read_body(bytes: &[u8], i: usize) -> (r: (Entity, usize))
    requires
        i <= bytes@.len(),
        bytes@.len() < usize::MAX,
    ensures
        (r.0@, r.1 as int) == body_at(bytes@, i as int, empty_entity()),
{
    let mut ent = Entity { class_name: String::new(), props: Vec::new() };
    let mut pos = i;
    let ghost full = body_at(bytes@, i as int, empty_entity());
    assert(ent@.class_name =~= empty_entity().class_name);
    assert(ent@.props =~= empty_entity().props);
    loop
        invariant
            pos <= bytes@.len(),
            bytes@.len() < usize::MAX,
            full == body_at(bytes@, i as int, empty_entity()),
            full == body_at(bytes@, pos as int, ent@),
        decreases bytes@.len() + 1 - pos,
    {
        proof {
            lemma_runs_bounded(bytes@, pos as int);
        }
        let i1 = skip_ws(bytes, pos);
        if i1 >= bytes.len() || bytes[i1] == 0x7D {
            return (ent, i1 + 1);
        }
        let (key, i2) = match read_quoted(bytes, i1) {
            Some(t) => t,
            None => return (ent, i1),
        };
        proof {
            lemma_runs_bounded(bytes@, (i1 + 1) as int);
        }
        proof {
            lemma_runs_bounded(bytes@, i2 as int);
        }
        let i3 = skip_ws(bytes, i2);
        let (val, i4) = match read_quoted(bytes, i3) {
            Some(t) => t,
            None => return (ent, i3),
        };
        proof {
            lemma_runs_bounded(bytes@, (i3 + 1) as int);
        }
        if str_eq(key.as_str(), "classname") {
            ent.class_name = val;
        } else {
            ent.insert_prop(key, val);
        }
        pos = i4;
    }
}

/// Parse the entity lump text into a list of entities; blocks with no class
/// and no properties are dropped.
pub fn parse_entities(text: &str) -> (r: Vec<Entity>)
    requires
        encode_utf8(text@).len() < usize::MAX,
    ensures
        entities_view(r@) == entities_from(encode_utf8(text@), 0, Seq::empty()),
{
    let bytes = text.as_bytes();
    let ghost b = bytes@;
    assert(b == encode_utf8(text@));
    let mut out: Vec<Entity> = Vec::new();
    let mut i: usize = 0;
    let ghost full = entities_from(b, 0, Seq::empty());
    assert(entities_view(out@) =~= Seq::<EntityView>::empty());
    while i < bytes.len()
        invariant
            b == bytes@,
            b == encode_utf8(text@),
            full == entities_from(b, 0, Seq::empty()),
            b.len() < usize::MAX,
            i <= b.len() + 1,
            full == entities_from(b, i as int, entities_view(out@)),
        decreases b.len() + 1 - i,
    {
        let j = skip_until(bytes, i, 0x7B);
        if j >= bytes.len() {
            assert(entities_from(b, i as int, entities_view(out@)) == entities_view(out@));
            return out;
        }
        proof {
            lemma_body_advances(b, j + 1, empty_entity());
        }
        let (ent, k) = read_body(bytes, j + 1);
        if !ent.class_name.as_str().is_empty() || ent.props.len() > 0 {
            let ghost before = entities_view(out@);
            out.push(ent);
            assert(entities_view(out@) =~= before.push(ent@));
        }
        i = k;
    }
    out
}

// ---------------------------------------------------------------------------
// Recognised entities
// ---------------------------------------------------------------------------

/// Which side a spawn point belongs to.
#[derive(Clone, Copy, PartialEq, Eq, Debug, Structural)]
pub enum Team {
    /// Counter-Terrorist (`info_player_start`).
    Ct,
    /// Terrorist (`info_player_deathmatch`).
    T,
    Other,
}

/// The side a spawn entity's class gives its spawn point, if it is one.
pub open spec fn spec_spawn_team(class_name: Seq<char>) -> Option<Team> {
    if class_name == "info_player_start"@ {
        Some(Team::Ct)
    } else if class_name == "info_player_deathmatch"@ {
        Some(Team::T)
    } else {
        None
    }
}

/// The side of a player spawn entity: `info_player_start` spawns
/// Counter-Terrorists, `info_player_deathmatch` Terrorists; other classes are
/// not spawns.
pub fn spawn_team(class_name: &str) -> (r: Option<Team>)
    ensures
        r == spec_spawn_team(class_name@),
{
    if str_eq(class_name, "info_player_start") {
        Some(Team::Ct)
    } else if str_eq(class_name, "info_player_deathmatch") {
        Some(Team::T)
    } else {
        None
    }
}

/// The positions, in order, of the spawn points that belong to `team`.
pub open spec fn spec_spawn_indices(teams: Seq<Team>, team: Team) -> Seq<usize>
    decreases teams.len(),
{
    if teams.len() == 0 {
        Seq::empty()
    } else if teams.last() == team {
        spec_spawn_indices(teams.drop_last(), team).push((teams.len() - 1) as usize)
    } else {
        spec_spawn_indices(teams.drop_last(), team)
    }
}

/// The positions, in order, of the spawn points (given by their teams) that
/// belong to `team`.
pub fn spawn_indices_for(teams: &[Team], team: Team) -> (r: Vec<usize>)
    ensures
        r@ == spec_spawn_indices(teams@, team),
{
    let mut out: Vec<usize> = Vec::new();
    let mut i: usize = 0;
    assert(teams@.take(0) =~= Seq::<Team>::empty());
    while i < teams.len()
        invariant
            i <= teams.len(),
            out@ == spec_spawn_indices(teams@.take(i as int), team),
        decreases teams.len() - i,
    {
        assert(teams@.take(i as int + 1).drop_last() =~= teams@.take(i as int));
        if teams[i] == team {
            out.push(i);
        }
        i = i + 1;
    }
    assert(teams@.take(teams.len() as int) =~= teams@);
    out
}

/// The spawn point to use for `team`: its first own spawn point, else the
/// first of any team, else none.
pub open spec fn spec_pick_spawn(teams: Seq<Team>, team: Team) -> Option<usize> {
    let own = spec_spawn_indices(teams, team);
    if own.len() > 0 {
        Some(own[0])
    } else if teams.len() > 0 {
        Some(0)
    } else {
        None
    }
}

/// The spawn point (given by the teams of all of them) to use for `team`:
/// its first own spawn point, else the first of any team, else none.
pub fn pick_spawn_index(teams: &[Team], team: Team) -> (r: Option<usize>)
    ensures
        r == spec_pick_spawn(teams@, team),
{
    let own = spawn_indices_for(teams, team);
    if own.len() > 0 {
        Some(own[0])
    } else if teams.len() > 0 {
        Some(0)
    } else {
        None
    }
}

/// A brush-based trigger volume (buy zone, bomb target, trigger_*).
#[derive(Clone, Debug)]
pub struct TriggerVolume {
    pub class_name: String,
    pub target_name: Option<String>,
    /// Model index referenced by the entity (`"*N"`), if any.
    pub model_index: Option<u32>,
}

/// The mathematical content of a trigger volume.
pub struct TriggerView {
    pub class_name: Seq<char>,
    pub target_name: Option<Seq<char>>,
    pub model_index: Option<u32>,
}

impl View for TriggerVolume {
    type V = TriggerView;

    open spec fn view(&self) -> TriggerView {
        TriggerView {
            class_name: self.class_name@,
            target_name: match self.target_name {
                Some(t) => Some(t@),
                None => None,
            },
            model_index: self.model_index,
        }
    }
}

/// Whether a classname marks a trigger-like brush volume: it starts with
/// `trigger_`, or is a buy zone, bomb target or hostage rescue zone.
pub open spec fn is_trigger_class(c: Seq<char>) -> bool {
    ||| crate::text::bytes_start_with(encode_utf8(c), encode_utf8("trigger_"@))
    ||| c == "func_buyzone"@
    ||| c == "func_bomb_target"@
    ||| c == "func_hostage_rescue"@
}

/// The trigger volume an entity describes.
pub open spec fn trigger_of(e: EntityView) -> TriggerView {
    TriggerView {
        class_name: e.class_name,
        target_name: key_get(e.props, "targetname"@),
        model_index: match key_get(e.props, "model"@) {
            Some(m) => spec_brush_model_index(m),
            None => None,
        },
    }
}

/// The trigger volumes among `es`, in order.
pub open spec fn triggers_of(es: Seq<EntityView>) -> Seq<TriggerView>
    decreases es.len(),
{
    if es.len() == 0 {
        Seq::empty()
    } else if is_trigger_class(es.last().class_name) {
        triggers_of(es.drop_last()).push(trigger_of(es.last()))
    } else {
        triggers_of(es.drop_last())
    }
}

/// Whether a classname names a buy zone, bomb target or hostage rescue
/// zone, or its UTF-8 begins with `trigger_`.
pub open spec fn names_trigger_volume(c: Seq<char>) -> bool {
    ||| c == "func_buyzone"@
    ||| c == "func_bomb_target"@
    ||| c == "func_hostage_rescue"@
    ||| (encode_utf8(c).len() >= 8 && encode_utf8(c).subrange(0, 8) == encode_utf8("trigger_"@))
}

/// ASCII text is one UTF-8 byte per character.
proof fn lemma_ascii_encode_len(s: Seq<char>)
    requires
        forall|i: int| 0 <= i < s.len() ==> (#[trigger] s[i] as u32) < 0x80,
    ensures
        encode_utf8(s).len() == s.len(),
    decreases s.len(),
{
    if s.len() > 0 {
        let t = s.drop_first();
        assert forall|i: int| 0 <= i < t.len() implies (#[trigger] t[i] as u32) < 0x80 by {
            assert(t[i] == s[i + 1]);
        }
        lemma_ascii_encode_len(t);
        assert((s[0] as u32) < 0x80);
    }
}

/// `trigger_` is eight bytes of UTF-8.
proof fn lemma_trigger_prefix_len()
    ensures
        encode_utf8("trigger_"@).len() == 8,
{
    reveal_strlit("trigger_");
    let s = "trigger_"@;
    assert forall|i: int| 0 <= i < s.len() implies (#[trigger] s[i] as u32) < 0x80 by {
        assert(s[i] == 't' || s[i] == 'r' || s[i] == 'i' || s[i] == 'g' || s[i] == 'e' || s[i] == '_');
    }
    lemma_ascii_encode_len(s);
}

/// Every buy zone, bomb target, hostage rescue zone and `trigger_*` entity
/// yields a trigger volume carrying its class, target name and model, and
/// every trigger volume comes from such an entity.
pub proof fn lemma_trigger_volumes(es: Seq<EntityView>)
    ensures
        forall|k: int|
            0 <= k < es.len() && names_trigger_volume(es[k].class_name) ==> triggers_of(
                es,
            ).contains(trigger_of(#[trigger] es[k])),
        forall|t: int|
            #![trigger triggers_of(es)[t]]
            0 <= t < triggers_of(es).len() ==> exists|k: int|
                0 <= k < es.len() && names_trigger_volume(es[k].class_name) && triggers_of(es)[t]
                    == trigger_of(#[trigger] es[k]),
    decreases es.len(),
{
    if es.len() > 0 {
        lemma_trigger_prefix_len();
        let rest = es.drop_last();
        lemma_trigger_volumes(rest);
        let last = es.last();
        let tr = triggers_of(rest);
        assert forall|k: int|
            0 <= k < es.len() && names_trigger_volume(es[k].class_name) implies triggers_of(
                es,
            ).contains(trigger_of(#[trigger] es[k])) by {
            if k < es.len() - 1 {
                assert(es[k] == rest[k]);
                let i = choose|i: int| 0 <= i < tr.len() && tr[i] == trigger_of(rest[k]);
                if is_trigger_class(last.class_name) {
                    assert(triggers_of(es)[i] == tr[i]);
                } else {
                    assert(triggers_of(es) == tr);
                }
            } else {
                assert(es[k] == last);
                assert(is_trigger_class(last.class_name));
                assert(triggers_of(es)[tr.len() as int] == trigger_of(last));
            }
        }
        assert forall|t: int|
            #![trigger triggers_of(es)[t]]
            0 <= t < triggers_of(es).len() implies exists|k: int|
            0 <= k < es.len() && names_trigger_volume(es[k].class_name) && triggers_of(es)[t]
                == trigger_of(#[trigger] es[k]) by {
            if t < tr.len() {
                let k = choose|k: int|
                    0 <= k < rest.len() && names_trigger_volume(rest[k].class_name) && tr[t]
                        == trigger_of(#[trigger] rest[k]);
                assert(es[k] == rest[k]);
                assert(triggers_of(es)[t] == tr[t]);
            } else {
                assert(es[es.len() - 1] == last);
                assert(triggers_of(es)[t] == trigger_of(last));
            }
        }
    }
}

/// The views of a sequence of trigger volumes.
pub open spec fn triggers_view(ts: Seq<TriggerVolume>) -> Seq<TriggerView> {
    Seq::new(ts.len(), |i: int| ts[i]@)
}

/// Whether an entity's classname marks a trigger volume.
fn is_trigger(e: &Entity) -> (r: bool)
    ensures
        r == is_trigger_class(e@.class_name),
{
    let c = e.class_name.as_str();
    let prefix = "trigger_";
    bytes_have_prefix(c.as_bytes(), prefix.as_bytes()) || str_eq(c, "func_buyzone") || str_eq(
        c,
        "func_bomb_target",
    ) || str_eq(c, "func_hostage_rescue")
}

/// Extract trigger-like brush volumes (buy zones, bomb targets, triggers).
pub fn extract_triggers(entities: &[Entity]) -> (r: Vec<TriggerVolume>)
    ensures
        triggers_view(r@) == triggers_of(entities_view(entities@)),
{
    let ghost es = entities_view(entities@);
    let mut out: Vec<TriggerVolume> = Vec::new();
    let mut i: usize = 0;
    assert(es.take(0) =~= Seq::<EntityView>::empty());
    assert(triggers_view(out@) =~= Seq::<TriggerView>::empty());
    while i < entities.len()
        invariant
            es == entities_view(entities@),
            i <= es.len(),
            triggers_view(out@) == triggers_of(es.take(i as int)),
        decreases es.len() - i,
    {
        let e = &entities[i];
        proof {
            assert(es.take(i + 1).drop_last() =~= es.take(i as int));
            assert(es.take(i + 1).last() == e@);
        }
        if is_trigger(e) {
            let target_name = match e.get("targetname") {
                Some(t) => Some(t.to_owned()),
                None => None,
            };
            let t = TriggerVolume {
                class_name: e.class_name.clone(),
                target_name,
                model_index: e.brush_model_index(),
            };
            let ghost before = triggers_view(out@);
            out.push(t);
            assert(triggers_view(out@) =~= before.push(trigger_of(e@)));
        }
        i = i + 1;
    }
    assert(es.take(es.len() as int) =~= es);
    out
}

} // verus!
