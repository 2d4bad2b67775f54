//! The sound registry: logical sound names mapped to stable, dense handles,
//! each optionally carrying decoded WAV data.
use vstd::prelude::*;
use crate::handles::SoundHandle;
use crate::text::str_eq;
use crate::wav::{WavData, WavView};

verus! {

/// The default headless/silent audio backend: every call is a no-op.
#[derive(Debug, Clone, Copy, Default)]
pub struct NullAudio;

impl NullAudio {
    /// Construct the silent backend.
    pub fn new() -> (r: Self)
        ensures
            r == NullAudio,
    {
        NullAudio
    }
}

/// The mathematical content of a bank: the registered names in handle order
/// and the WAV data attached to each.
pub struct SoundBankView {
    pub names: Seq<Seq<char>>,
    pub wavs: Seq<Option<WavView>>,
}

/// The position of `name` among `names`, searching from `from`.
pub open spec fn name_index_from(names: Seq<Seq<char>>, name: Seq<char>, from: int) -> Option<int>
    decreases names.len() - from,
{
    if from < 0 || from >= names.len() {
        None
    } else if names[from] == name {
        Some(from)
    } else {
        name_index_from(names, name, from + 1)
    }
}

/// The position of `name` among `names`.
pub open spec fn name_index(names: Seq<Seq<char>>, name: Seq<char>) -> Option<int> {
    name_index_from(names, name, 0)
}

/// The handle a bank reports for `name`, if registered.
pub open spec fn spec_handle_of(v: SoundBankView, name: Seq<char>) -> Option<SoundHandle> {
    match name_index(v.names, name) {
        Some(i) => Some(SoundHandle(i as u32)),
        None => None,
    }
}

/// Registering `name`: the existing handle if it is known, otherwise a new
/// entry at the end and the next dense index as its handle.
pub open spec fn spec_register(v: SoundBankView, name: Seq<char>) -> (SoundBankView, SoundHandle) {
    match name_index(v.names, name) {
        Some(i) => (v, SoundHandle(i as u32)),
        None => (
            SoundBankView { names: v.names.push(name), wavs: v.wavs.push(None) },
            SoundHandle(v.names.len() as u32),
        ),
    }
}

/// The name behind a handle, if it belongs to the bank.
pub open spec fn spec_name_of(v: SoundBankView, h: SoundHandle) -> Option<Seq<char>> {
    if h.0 < v.names.len() {
        Some(v.names[h.0 as int])
    } else {
        None
    }
}

/// The WAV data behind a handle, if any was attached.
pub open spec fn spec_wav(v: SoundBankView, h: SoundHandle) -> Option<WavView> {
    if h.0 < v.wavs.len() {
        v.wavs[h.0 as int]
    } else {
        None
    }
}

/// No name occurs twice.
pub open spec fn names_unique(names: Seq<Seq<char>>) -> bool {
    forall|i: int, j: int| 0 <= i < j < names.len() ==> names[i] != names[j]
}

/// Registry mapping logical sound names to stable [`SoundHandle`]s.
///
/// Handles are dense indices assigned in registration order and are stable
/// for the lifetime of the bank: registering the same name twice returns the
/// same handle, and handles are never reused or invalidated.
#[derive(Debug, Clone, Default)]
pub struct SoundBank {
    names: Vec<String>,
    wavs: Vec<Option<WavData>>,
}

impl View for SoundBank {
    type V = SoundBankView;

    closed spec fn view(&self) -> SoundBankView {
        SoundBankView {
            names: Seq::new(self.names@.len(), |i: int| self.names@[i]@),
            wavs: Seq::new(
                self.wavs@.len(),
                |i: int|
                    match self.wavs@[i] {
                        Some(w) => Some(w@),
                        None => None,
                    },
            ),
        }
    }
}

impl SoundBank {
    /// Both tables have one row per registered name, and no name occurs
    /// twice.
    pub closed spec fn wf(&self) -> bool {
        &&& self.names@.len() == self.wavs@.len()
        &&& names_unique(self@.names)
    }

    /// Construct an empty bank.
    pub fn new() -> (b: Self)
        ensures
            b.wf(),
            b@.names.len() == b@.wavs.len(),
            b@.names == Seq::<Seq<char>>::empty(),
            b@.wavs == Seq::<Option<WavView>>::empty(),
    {
        let b = SoundBank { names: Vec::new(), wavs: Vec::new() };
        assert(b@.names =~= Seq::<Seq<char>>::empty());
        assert(b@.wavs =~= Seq::<Option<WavView>>::empty());
        b
    }

    /// The position of `name`, if registered.
    fn index_of(&self, name: &str) -> (r: Option<usize>)
        ensures
            r is None <==> name_index(self@.names, name@) is None,
            r matches Some(k) ==> name_index(self@.names, name@) == Some(k as int),
    {
        let ghost names = self@.names;
        let mut i: usize = 0;
        while i < self.names.len()
            invariant
                names == self@.names,
                names.len() == self.names@.len(),
                i <= names.len(),
                name_index(names, name@) == name_index_from(names, name@, i as int),
            decreases names.len() - i,
        {
            if str_eq(self.names[i].as_str(), name) {
                return Some(i);
            }
            i = i + 1;
        }
        None
    }

    /// Register a logical sound name, returning its stable handle.
    /// Idempotent: an already-registered name gets its existing handle.
    pub fn register(&mut self, name: &str) -> (h: SoundHandle)
        requires
            old(self).wf(),
        ensures
            final(self).wf(),
            (final(self)@, h) == spec_register(old(self)@, name@),
            h.0 < final(self)@.names.len(),
            final(self)@.names.len() == final(self)@.wavs.len(),
            name_index(old(self)@.names, name@) is None && old(self)@.names.len() <= u32::MAX
                ==> spec_wav(final(self)@, h) is None,
    {
        proof {
            lemma_name_index_none(self@.names, name@, 0);
        }
        if let Some(i) = self.index_of(name) {
            return SoundHandle(i as u32);
        }
        let len = self.names.len();
        let handle = SoundHandle(len as u32);
        assert((len as u32) as usize <= len) by (bit_vector);
        let ghost old_names = self@.names;
        proof {
            lemma_name_index_none(old_names, name@, 0);
        }
        self.names.push(name.to_owned());
        self.wavs.push(None);
        assert(self@.names =~= old_names.push(name@));
        assert(self@.wavs =~= old(self)@.wavs.push(None));
        assert(names_unique(self@.names));
        handle
    }

    /// Look up the handle previously assigned to `name`, if any.
    pub fn handle_of(&self, name: &str) -> (r: Option<SoundHandle>)
        ensures
            r == spec_handle_of(self@, name@),
    {
        proof {
            lemma_name_index_none(self@.names, name@, 0);
        }
        match self.index_of(name) {
            Some(i) => {
                Some(SoundHandle(i as u32))
            },
            None => None,
        }
    }

    /// Number of registered sounds.
    pub fn len(&self) -> (r: usize)
        ensures
            r == self@.names.len(),
    {
        self.names.len()
    }

    /// `true` if no sounds are registered.
    pub fn is_empty(&self) -> (r: bool)
        ensures
            r == (self@.names.len() == 0),
    {
        self.names.len() == 0
    }

    /// The logical name behind a handle, if it belongs to this bank.
    pub fn name_of(&self, handle: SoundHandle) -> (r: Option<&str>)
        ensures
            match (r, spec_name_of(self@, handle)) {
                (Some(x), Some(y)) => x@ == y,
                (None, None) => true,
                _ => false,
            },
    {
        let i = handle.index();
        if i < self.names.len() {
            Some(self.names[i].as_str())
        } else {
            None
        }
    }

    /// Borrow the decoded [`WavData`] attached to a handle, if any was loaded.
    pub fn wav(&self, handle: SoundHandle) -> (r: Option<&WavData>)
        ensures
            match (r, spec_wav(self@, handle)) {
                (Some(x), Some(y)) => x@ == y,
                (None, None) => true,
                _ => false,
            },
    {
        let i = handle.index();
        if i < self.wavs.len() {
            match &self.wavs[i] {
                Some(w) => Some(w),
                None => None,
            }
        } else {
            None
        }
    }

    /// Borrow the raw PCM bytes attached to a handle, if any was loaded.
    pub fn pcm(&self, handle: SoundHandle) -> (r: Option<&[u8]>)
        ensures
            match (r, spec_wav(self@, handle)) {
                (Some(x), Some(y)) => x@ == y.pcm,
                (None, None) => true,
                _ => false,
            },
    {
        match self.wav(handle) {
            Some(w) => Some(w.pcm.as_slice()),
            None => None,
        }
    }

    /// Attach already-parsed [`WavData`] to `name`, registering it if needed,
    /// and return the name's handle.
    pub fn insert_wav(&mut self, name: &str, wav: WavData) -> (h: SoundHandle)
        requires
            old(self).wf(),
        ensures
            final(self).wf(),
            h == spec_register(old(self)@, name@).1,
            final(self)@.names == spec_register(old(self)@, name@).0.names,
            final(self)@.wavs == spec_register(old(self)@, name@).0.wavs.update(
                h.0 as int,
                Some(wav@),
            ),
            final(self)@.names.len() == final(self)@.wavs.len(),
            h.0 < final(self)@.names.len(),
            spec_wav(final(self)@, h) == Some(wav@),
            forall|g: SoundHandle|
                g != h ==> #[trigger] spec_wav(final(self)@, g) == spec_wav(old(self)@, g)
                    && spec_name_of(final(self)@, g) == spec_name_of(old(self)@, g),
    {
        let handle = self.register(name);
        let i = handle.index();
        let ghost before = self@;
        if i < self.wavs.len() {
            self.wavs.set(i, Some(wav));
        }
        proof {
            assert(self@.names =~= before.names);
            assert(self@.wavs =~= before.wavs.update(i as int, Some(wav@)));
        }
        handle
    }
}

/// A missing name is absent from every position from `from` on.
proof fn lemma_name_index_none(names: Seq<Seq<char>>, name: Seq<char>, from: int)
    requires
        0 <= from,
    ensures
        name_index_from(names, name, from) is None <==> forall|j: int|
            from <= j < names.len() ==> names[j] != name,
        name_index_from(names, name, from) matches Some(i) ==> from <= i < names.len() && names[i]
            == name && forall|j: int| from <= j < i ==> names[j] != name,
    decreases names.len() - from,
{
    if from < names.len() {
        lemma_name_index_none(names, name, from + 1);
    }
}

proof fn lemma_index_after_push(names: Seq<Seq<char>>, name: Seq<char>, other: Seq<char>)
    ensures
        name_index(names, other) matches Some(i) ==> name_index(names.push(name), other) == Some(i),
        name_index(names, other) is None && other == name ==> name_index(names.push(name), other)
            == Some(names.len() as int),
        name_index(names, other) is None && other != name ==> name_index(names.push(name), other)
            is None,
{
    lemma_name_index_none(names, other, 0);
    lemma_name_index_none(names.push(name), other, 0);
    let pushed = names.push(name);
    if let Some(i) = name_index(names, other) {
        lemma_first_index_same(pushed, other, 0, i);
    } else if other == name {
        lemma_first_index_same(pushed, other, 0, names.len() as int);
    }
}

proof fn lemma_first_index_same(names: Seq<Seq<char>>, other: Seq<char>, from: int, i: int)
    requires
        0 <= from <= i < names.len(),
        names[i] == other,
        forall|j: int| from <= j < i ==> names[j] != other,
    ensures
        name_index_from(names, other, from) == Some(i),
    decreases i - from,
{
    if from < i {
        lemma_first_index_same(names, other, from + 1, i);
    }
}

/// Registering a name twice returns the same handle and leaves the bank as
/// the first registration left it.
pub proof fn lemma_register_idempotent(v: SoundBankView, name: Seq<char>)
    ensures
        spec_register(spec_register(v, name).0, name) == spec_register(v, name),
{
    lemma_index_after_push(v.names, name, name);
}

/// After registering a name (while fewer than `u32::MAX` names are known),
/// looking the name up gives the handle that registration returned, and the
/// handle leads back to the name.
pub proof fn lemma_register_then_lookup(v: SoundBankView, name: Seq<char>)
    requires
        v.names.len() < u32::MAX,
        v.names.len() == v.wavs.len(),
    ensures
        spec_handle_of(spec_register(v, name).0, name) == Some(spec_register(v, name).1),
        spec_name_of(spec_register(v, name).0, spec_register(v, name).1) == Some(name),
{
    lemma_index_after_push(v.names, name, name);
    lemma_name_index_none(v.names, name, 0);
}

/// Registering a name never changes the handle of a name registered before.
pub proof fn lemma_register_keeps_handles(v: SoundBankView, name: Seq<char>, other: Seq<char>)
    requires
        spec_handle_of(v, other) is Some,
    ensures
        spec_handle_of(spec_register(v, name).0, other) == spec_handle_of(v, other),
{
    lemma_index_after_push(v.names, name, other);
}

/// Two different names get two different handles (while the bank holds
/// fewer than `u32::MAX - 1` names).
pub proof fn lemma_distinct_names_distinct_handles(v: SoundBankView, a: Seq<char>, b: Seq<char>)
    requires
        a != b,
        v.names.len() + 1 < u32::MAX,
    ensures
        spec_register(v, a).1 != spec_register(spec_register(v, a).0, b).1,
{
    lemma_name_index_none(v.names, a, 0);
    lemma_index_after_push(v.names, a, b);
    lemma_index_after_push(v.names, a, a);
    let v1 = spec_register(v, a).0;
    lemma_name_index_none(v1.names, b, 0);
    lemma_name_index_none(v1.names, a, 0);
}

} // verus!
