//! One retained checkpoint generation, including its active output worker.
//! A missing entry means no worker owns the generation, not that an artifact
//! is durable. Artifact completion is still reported by the output operation.

use vstd::prelude::*;

verus! {

#[derive(Clone, Copy, Debug, PartialEq, Eq, Structural)]
pub enum Status {
    Preparing,
    Ready,
    Finishing,
}

pub enum Entry<T> {
    Preparing,
    Ready(T),
    Finishing,
}

impl<T> Entry<T> {
    pub open spec fn status(self) -> Status {
        match self {
            Entry::Preparing => Status::Preparing,
            Entry::Ready(_) => Status::Ready,
            Entry::Finishing => Status::Finishing,
        }
    }
}

/// The one slot. While it is occupied no other generation can be prepared.
pub struct PreparedSaves<T> {
    entry: Option<(String, Entry<T>)>,
}

impl<T> View for PreparedSaves<T> {
    type V = Option<(Seq<char>, Entry<T>)>;

    closed spec fn view(&self) -> Option<(Seq<char>, Entry<T>)> {
        match self.entry {
            Some((id, state)) => Some((id@, state)),
            None => None,
        }
    }
}

/// What the slot holds: the identifier of a generation, and its state.
pub type Slot<T> = Option<(Seq<char>, Entry<T>)>;

/// The state of the generation with the identifier.
pub open spec fn status_of<T>(slot: Slot<T>, id: Seq<char>) -> Option<Status> {
    match slot {
        Some((current, state)) => if current == id {
            Some(state.status())
        } else {
            None
        },
        None => None,
    }
}

/// The slot after a reservation, and whether that was granted.
pub open spec fn reserved<T>(slot: Slot<T>, id: Seq<char>) -> (Slot<T>, bool) {
    match slot {
        Some(_) => (slot, false),
        None => (Some((id, Entry::Preparing)), true),
    }
}

/// The slot after its generation was taken out for output, and the
/// generation.
pub open spec fn begun<T>(slot: Slot<T>, id: Seq<char>) -> (Slot<T>, Option<T>) {
    match slot {
        Some((current, Entry::Ready(value))) => if current == id {
            (Some((current, Entry::Finishing)), Some(value))
        } else {
            (slot, None)
        },
        _ => (slot, None),
    }
}

/// The slot after a cancellation, and whether there was something to cancel.
pub open spec fn cancelled<T>(slot: Slot<T>, id: Seq<char>) -> (Slot<T>, bool) {
    match begun(slot, id).1 {
        Some(_) => (None, true),
        None => (slot, false),
    }
}

/// While a generation is output its slot is held: it shows as finishing, no
/// other generation can be reserved, and none can be output or cancelled,
/// that one included. What is refused leaves the slot as it is.
pub proof fn an_output_holds_its_slot<T>(slot: Slot<T>, id: Seq<char>, other: Seq<char>)
    requires
        status_of(slot, id) == Some(Status::Ready),
    ensures
        ({
            let (held, value) = begun(slot, id);
            &&& value is Some
            &&& status_of(held, id) == Some(Status::Finishing)
            &&& reserved(held, other) == (held, false)
            &&& begun(held, other) == (held, None::<T>)
            &&& cancelled(held, other) == (held, false)
        }),
{
}

/// A slot that was freed has no generation, and can be reserved for any.
pub proof fn a_free_slot_can_be_reserved<T>(id: Seq<char>)
    ensures
        status_of(None::<(Seq<char>, Entry<T>)>, id) is None,
        reserved(None::<(Seq<char>, Entry<T>)>, id).1,
{
}

/// The right to publish the generation that a slot was reserved for. It is
/// given up by [`PreparedSaves::publish`] or [`PreparedSaves::abandon`].
pub struct Preparation {
    id: String,
}

impl View for Preparation {
    type V = Seq<char>;

    /// The identifier that was reserved.
    closed spec fn view(&self) -> Seq<char> {
        self.id@
    }
}

/// Drops the value at once.
fn discard<T>(value: T) {
}

impl<T> PreparedSaves<T> {
    pub fn new() -> (r: Self)
        ensures
            r@ is None,
    {
        PreparedSaves { entry: None }
    }

    /// Occupy the slot; None where it is occupied already.
    pub fn reserve(&mut self, id: &str) -> (r: Option<Preparation>)
        ensures
            (final(self)@, r is Some) == reserved(old(self)@, id@),
            r matches Some(preparation) ==> preparation@ == id@,
    {
        if self.entry.is_some() {
            return None;
        }
        self.entry = Some((id.to_string(), Entry::Preparing));
        Some(Preparation { id: id.to_string() })
    }

    /// The generation that the slot was reserved for is captured.
    pub fn publish(&mut self, preparation: Preparation, value: T)
        requires
            old(self)@ == Some((preparation@, Entry::<T>::Preparing)),
        ensures
            final(self)@ == Some((preparation@, Entry::Ready(value))),
    {
        self.entry = Some((preparation.id, Entry::Ready(value)));
    }

    /// The generation could not be captured: the slot is free again.
    pub fn abandon(&mut self, preparation: Preparation)
        requires
            old(self)@ == Some((preparation@, Entry::<T>::Preparing)),
        ensures
            final(self)@ is None,
    {
        self.entry = None;
    }

    pub fn status(&self, id: &str) -> (r: Option<Status>)
        ensures
            r == status_of(self@, id@),
    {
        match &self.entry {
            None => None,
            Some((current, state)) => {
                if !crate::text::same(current.as_str(), id) {
                    return None;
                }
                Some(
                    match state {
                        Entry::Preparing => Status::Preparing,
                        Entry::Ready(_) => Status::Ready,
                        Entry::Finishing => Status::Finishing,
                    },
                )
            },
        }
    }

    /// Take the generation out for output. The slot stays occupied until
    /// [`PreparedSaves::complete`].
    pub fn begin_finish(&mut self, id: &str) -> (r: Option<T>)
        ensures
            (final(self)@, r) == begun(old(self)@, id@),
    {
        match self.entry.take() {
            None => None,
            Some((current, state)) => {
                if !crate::text::same(current.as_str(), id) {
                    self.entry = Some((current, state));
                    return None;
                }
                match state {
                    Entry::Ready(value) => {
                        self.entry = Some((current, Entry::Finishing));
                        Some(value)
                    },
                    other => {
                        self.entry = Some((current, other));
                        None
                    },
                }
            },
        }
    }

    /// The output ended, well or not: the slot is free again.
    pub fn complete(&mut self)
        requires
            old(self)@ matches Some((_, Entry::Finishing)),
        ensures
            final(self)@ is None,
    {
        self.entry = None;
    }

    /// The callback must finish using the generation before returning.
    /// Nobody else gets at the slot meanwhile: it is borrowed for the output.
    /// It is freed for the time after that before the output starts, so that
    /// one that unwinds leaves it free as well. Where others have to look
    /// during the output, use [`PreparedSaves::begin_finish`] and
    /// [`PreparedSaves::complete`].
    pub fn finish<R, F: FnOnce(T) -> R>(&mut self, id: &str, output: F) -> (r: Option<R>)
        requires
            begun(old(self)@, id@).1 matches Some(value) ==> output.requires((value,)),
        ensures
            match begun(old(self)@, id@).1 {
                Some(value) => r is Some && output.ensures((value,), r->0) && final(self)@ is None,
                None => r is None && final(self)@ == old(self)@,
            },
    {
        match self.begin_finish(id) {
            Some(value) => {
                self.complete();
                Some(output(value))
            },
            None => None,
        }
    }

    /// Drop the generation, then free the slot. False where there is none of
    /// that identifier to drop.
    pub fn cancel(&mut self, id: &str) -> (r: bool)
        ensures
            (final(self)@, r) == cancelled(old(self)@, id@),
    {
        match self.begin_finish(id) {
            Some(value) => {
                discard(value);
                self.complete();
                true
            },
            None => false,
        }
    }
}

} // verus!
