//! The contexts of a process: one configuration under each number.

use std::collections::hash_map::Entry;
use std::collections::HashMap;

use vstd::prelude::*;
use vstd::slice::slice_to_vec;
use vstd::utf8::{decode_utf8, valid_utf8};

use crate::config::{text_in, texts_in, unset, ContextConfig, Settings, VmConfig};
use crate::errno::Errno;
use crate::text::text_from_utf8;

verus! {

broadcast use vstd::std_specs::hash::group_hash_axioms;

/// The contexts that exist, and the number that the next one gets.
pub struct Contexts {
    next: i32,
    map: HashMap<u32, ContextConfig>,
}

/// The contexts, as a value.
pub struct Ctxs {
    pub next: int,
    pub settings: Map<u32, Settings>,
}

pub closed spec fn models(m: Map<u32, ContextConfig>) -> Map<u32, Settings> {
    m.map_values(|c: ContextConfig| c@)
}

impl View for Contexts {
    type V = Ctxs;

    closed spec fn view(&self) -> Ctxs {
        Ctxs { next: self.next as int, settings: models(self.map@) }
    }
}

impl Ctxs {
    /// Numbers are handed out from 0 up.
    pub open spec fn wf(self) -> bool {
        &&& 0 <= self.next <= i32::MAX
        &&& forall|id: u32| #[trigger] self.settings.contains_key(id) ==> id < self.next
    }

    /// The contexts with one of them changed.
    pub open spec fn with(self, id: u32, s: Settings) -> Ctxs {
        Ctxs { settings: self.settings.insert(id, s), ..self }
    }
}

/// The contexts after a call, and what it answers.
pub type Outcome = (Ctxs, Result<i32, Errno>);

/// A refusal changes nothing.
pub open spec fn refused(c: Ctxs, error: Errno) -> Outcome {
    (c, Err(error))
}

/// A change of one context, which it may refuse.
pub open spec fn changed(
    c: Ctxs,
    id: u32,
    change: spec_fn(Settings) -> Result<(Settings, i32), Errno>,
) -> Outcome {
    if !c.settings.contains_key(id) {
        refused(c, Errno::NoEnt)
    } else {
        match change(c.settings[id]) {
            Ok((s, value)) => (c.with(id, s), Ok(value)),
            Err(error) => refused(c, error),
        }
    }
}

/// A change of one context that always succeeds.
pub open spec fn put(c: Ctxs, id: u32, change: spec_fn(Settings) -> Settings) -> Outcome {
    if !c.settings.contains_key(id) {
        refused(c, Errno::NoEnt)
    } else {
        (c.with(id, change(c.settings[id])), Ok(0))
    }
}

impl Contexts {
    /// No contexts.
    pub fn new() -> (r: Self)
        ensures
            r@.wf(),
            r@.next == 0,
            r@.settings == Map::<u32, Settings>::empty(),
    {
        let r = Contexts { next: 0, map: HashMap::new() };
        assert(r@.settings =~= Map::<u32, Settings>::empty());
        r
    }

    /// Whether every number has been given.
    pub fn exhausted(&self) -> (r: bool)
        ensures
            r == (self@.next >= i32::MAX),
    {
        self.next == i32::MAX
    }

    /// The context with the number.
    pub(crate) fn find(&mut self, id: u32) -> (r: Option<&mut ContextConfig>)
        ensures
            match r {
                Some(c) => old(self)@.settings.contains_key(id) && c@ == old(self)@.settings[id]
                    && final(self)@ == old(self)@.with(id, final(c)@) && old(self)@.with(id, c@)
                    == old(self)@,
                None => !old(self)@.settings.contains_key(id) && final(self)@ == old(self)@,
            },
    {
        proof {
            let m = self.map@;
            assert forall|c: ContextConfig| #[trigger]
                models(m.insert(id, c)) == models(m).insert(id, c@) by {
                assert(models(m.insert(id, c)) =~= models(m).insert(id, c@));
            }
            if !m.contains_key(id) {
                assert(m.remove(id) =~= m);
            } else {
                assert(models(m).insert(id, m[id]@) =~= models(m));
            }
        }
        match self.map.entry(id) {
            Entry::Occupied(e) => Some(e.into_mut()),
            Entry::Vacant(_) => None,
        }
    }
}

/// The text that the bytes encode, where they are valid UTF-8.
pub open spec fn utf8_text(bytes: Seq<u8>) -> Option<Seq<char>> {
    if valid_utf8(bytes) {
        Some(decode_utf8(bytes))
    } else {
        None
    }
}

/// The text that the bytes encode, where they are valid UTF-8.
pub(crate) fn utf8(bytes: &[u8]) -> (r: Option<String>)
    ensures
        text_in(r) == utf8_text(bytes@),
{
    text_from_utf8(slice_to_vec(bytes))
}

/// The texts, where all of them are valid UTF-8.
pub open spec fn utf8_texts(items: Seq<Seq<u8>>) -> Option<Seq<Seq<char>>> {
    if forall|i: int| 0 <= i < items.len() ==> valid_utf8(#[trigger] items[i]) {
        Some(items.map_values(|b: Seq<u8>| decode_utf8(b)))
    } else {
        None
    }
}

/// The number of strings that an array may hold.
pub const MAX_ARGS: usize = 4096;

/// The strings of an array; more than [`MAX_ARGS`] are not looked at.
pub open spec fn array_of(items: Seq<Vec<u8>>) -> Seq<Seq<u8>> {
    items.take(if items.len() < MAX_ARGS { items.len() as int } else { MAX_ARGS as int }).map_values(
        |v: Vec<u8>| v@,
    )
}

/// The texts of an array, where all of them are valid UTF-8.
pub(crate) fn array_texts(items: &[Vec<u8>]) -> (r: Option<Vec<String>>)
    ensures
        match utf8_texts(array_of(items@)) {
            Some(texts) => r is Some && texts_in(r->0@) == texts,
            None => r is None,
        },
{
    let n: usize = if items.len() < MAX_ARGS {
        items.len()
    } else {
        MAX_ARGS
    };
    let ghost all = array_of(items@);
    let mut out: Vec<String> = Vec::new();
    let mut i: usize = 0;
    while i < n
        invariant
            i <= n == all.len(),
            n <= items@.len(),
            all == array_of(items@),
            forall|k: int| 0 <= k < n ==> #[trigger] all[k] == items@[k]@,
            out@.len() == i,
            forall|k: int|
                0 <= k < i ==> valid_utf8(#[trigger] all[k]) && out@[k]@ == decode_utf8(all[k]),
        decreases n - i,
    {
        match utf8(items[i].as_slice()) {
            Some(t) => out.push(t),
            None => {
                assert(!valid_utf8(all[i as int]));
                return None;
            },
        }
        i += 1;
    }
    assert(texts_in(out@) =~= all.map_values(|b: Seq<u8>| decode_utf8(b)));
    Some(out)
}

// ---------------------------------------------------------------------------
// Making and freeing contexts.
// ---------------------------------------------------------------------------

/// A new context, in which nothing has been set. Its number is the answer.
pub fn krun_create_ctx(
    ctxs: &mut Contexts,
    krunfw: bool,
    shutdown_efd: Option<i64>,
    vm_config: VmConfig,
) -> (r: i32)
    requires
        old(ctxs)@.wf(),
        old(ctxs)@.next < i32::MAX,
    ensures
        r == old(ctxs)@.next,
        !old(ctxs)@.settings.contains_key(r as u32),
        final(ctxs)@.wf(),
        final(ctxs)@.next == old(ctxs)@.next + 1,
        final(ctxs)@.settings == old(ctxs)@.settings.insert(
            r as u32,
            unset(krunfw, shutdown_efd, vm_config),
        ),
{
    let id: i32 = ctxs.next;
    ctxs.next = id + 1;
    let c = ContextConfig::new(krunfw, shutdown_efd, vm_config);
    let ghost m = ctxs.map@;
    ctxs.map.insert(id as u32, c);
    assert(models(m.insert(id as u32, c)) =~= models(m).insert(id as u32, c@));
    id
}

/// The contexts without the one with the number.
pub open spec fn freed(c: Ctxs, id: u32) -> Outcome {
    if c.settings.contains_key(id) {
        (Ctxs { settings: c.settings.remove(id), ..c }, Ok(0))
    } else {
        refused(c, Errno::NoEnt)
    }
}

pub fn krun_free_ctx(ctxs: &mut Contexts, ctx_id: u32) -> (r: Result<i32, Errno>)
    ensures
        (final(ctxs)@, r) == freed(old(ctxs)@, ctx_id),
{
    match ctxs.take(ctx_id) {
        Some(_) => Ok(0),
        None => Err(Errno::NoEnt),
    }
}

impl Contexts {
    /// Take the context out.
    pub(crate) fn take(&mut self, id: u32) -> (r: Option<ContextConfig>)
        ensures
            match r {
                Some(c) => old(self)@.settings.contains_key(id) && c@ == old(self)@.settings[id]
                    && final(self)@ == (Ctxs {
                    settings: old(self)@.settings.remove(id),
                    ..old(self)@
                }),
                None => !old(self)@.settings.contains_key(id) && final(self)@ == old(self)@,
            },
    {
        let ghost m = self.map@;
        let r = self.map.remove(&id);
        proof {
            assert(models(m.remove(id)) =~= models(m).remove(id));
            if !m.contains_key(id) {
                assert(m.remove(id) =~= m);
            }
        }
        r
    }

    /// The context with the number, to look at.
    pub fn get(&self, id: u32) -> (r: Option<&ContextConfig>)
        ensures
            match r {
                Some(c) => self@.settings.contains_key(id) && c@ == self@.settings[id],
                None => !self@.settings.contains_key(id),
            },
    {
        self.map.get(&id)
    }
}

// ---------------------------------------------------------------------------
// Laws.
// ---------------------------------------------------------------------------

/// No change of a context touches another one, or makes or frees one, or
/// hands out a number; a refusal changes nothing at all.
pub proof fn a_change_stays_in_its_context(
    c: Ctxs,
    id: u32,
    change: spec_fn(Settings) -> Result<(Settings, i32), Errno>,
)
    ensures
        changed(c, id, change).0.next == c.next,
        forall|other: u32| #[trigger]
            changed(c, id, change).0.settings.contains_key(other) == c.settings.contains_key(other),
        forall|other: u32|
            other != id && c.settings.contains_key(other) ==> #[trigger] changed(
                c,
                id,
                change,
            ).0.settings[other] == c.settings[other],
        changed(c, id, change).1 is Err ==> changed(c, id, change).0 == c,
        c.wf() ==> changed(c, id, change).0.wf(),
        put(c, id, |s: Settings| (change(s)->Ok_0).0) == changed(
            c,
            id,
            |s: Settings| Ok::<(Settings, i32), Errno>(((change(s)->Ok_0).0, 0i32)),
        ),
{
}

/// A freed context is gone, and a number that was handed out never comes
/// back.
pub proof fn a_freed_number_is_never_reused(c: Ctxs, id: u32)
    requires
        c.wf(),
        c.settings.contains_key(id),
    ensures
        freed(c, id).1 == Ok::<i32, Errno>(0),
        !freed(c, id).0.settings.contains_key(id),
        freed(c, id).0.wf(),
        freed(c, id).0.next > id,
        freed(freed(c, id).0, id) == refused(freed(c, id).0, Errno::NoEnt),
{
}

} // verus!
