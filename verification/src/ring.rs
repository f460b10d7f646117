//! Bounded recent history and the single-slot alert mailbox.
use vstd::prelude::*;

verus! {

/// The newest `limit` items of `items`, in their order.
pub open spec fn newest<T>(items: Seq<T>, limit: nat) -> Seq<T> {
    if items.len() <= limit {
        items
    } else {
        items.subrange(items.len() - limit, items.len() as int)
    }
}

/// Keeping the newest items twice, with the same limit, keeps what the first
/// pass kept.
pub proof fn lemma_newest_idempotent<T>(items: Seq<T>, limit: nat)
    ensures
        newest(newest(items, limit), limit) == newest(items, limit),
        newest(items, limit).len() <= limit,
{
}

/// What the newest `limit` items are after one more item arrives does not
/// depend on items that had already left.
pub proof fn lemma_newest_push<T>(items: Seq<T>, item: T, limit: nat)
    ensures
        newest(newest(items, limit).push(item), limit) == newest(items.push(item), limit),
{
    let kept = newest(items, limit);
    assert(newest(kept.push(item), limit) =~= newest(items.push(item), limit));
}

/// What is kept of a history that grew by a run of items does not depend on
/// items that had already left.
pub proof fn lemma_newest_append<T>(items: Seq<T>, more: Seq<T>, limit: nat)
    ensures
        newest(newest(items, limit) + more, limit) == newest(items + more, limit),
{
    assert(newest(newest(items, limit) + more, limit) =~= newest(items + more, limit));
}

/// A well-formed ring never shows more items than its capacity.
pub proof fn lemma_ring_bounded<T>(ring: MessageRing<T>)
    requires
        ring.wf(),
    ensures
        ring@.len() <= ring.spec_capacity(),
{
}

/// Ordered buffer of recent items, bounded by a capacity fixed at
/// construction. When a new item finds the buffer full, the oldest leaves.
pub struct MessageRing<T> {
    items: Vec<T>,
    limit: usize,
}

impl<T> View for MessageRing<T> {
    type V = Seq<T>;

    closed spec fn view(&self) -> Seq<T> {
        self.items@
    }
}

impl<T> MessageRing<T> {
    /// The ring holds no more than its capacity.
    pub closed spec fn wf(&self) -> bool {
        self.items@.len() <= self.limit
    }

    /// The capacity the ring was made with.
    pub closed spec fn spec_capacity(&self) -> nat {
        self.limit as nat
    }

    /// An empty ring that keeps at most `capacity` items.
    pub fn new(capacity: usize) -> (ring: Self)
        ensures
            ring.wf(),
            ring@ == Seq::<T>::empty(),
            ring.spec_capacity() == capacity,
    {
        MessageRing { items: Vec::new(), limit: capacity }
    }

    pub fn capacity(&self) -> (capacity: usize)
        ensures
            capacity == self.spec_capacity(),
    {
        self.limit
    }

    pub fn len(&self) -> (len: usize)
        ensures
            len == self@.len(),
            self.wf() ==> len <= self.spec_capacity(),
    {
        self.items.len()
    }

    pub fn is_empty(&self) -> (empty: bool)
        ensures
            empty == (self@.len() == 0),
    {
        self.items.len() == 0
    }

    /// Appends `item`; the oldest item leaves if the ring was full.
    pub fn push(&mut self, item: T)
        requires
            old(self).wf(),
        ensures
            final(self).wf(),
            final(self)@ == newest(old(self)@.push(item), old(self).spec_capacity()),
            final(self).spec_capacity() == old(self).spec_capacity(),
    {
        if self.limit == 0 {
            assert(newest(self.items@.push(item), 0) =~= self.items@);
            return ;
        }
        if self.items.len() == self.limit {
            self.items.remove(0);
        }
        self.items.push(item);
        assert(self.items@ =~= newest(old(self).items@.push(item), old(self).limit as nat));
    }

    /// Moves the history out, oldest first, and leaves the ring empty.
    pub fn take(&mut self) -> (items: Vec<T>)
        ensures
            final(self).wf(),
            items@ == old(self)@,
            final(self)@ == Seq::<T>::empty(),
            final(self).spec_capacity() == old(self).spec_capacity(),
    {
        let mut items: Vec<T> = Vec::new();
        core::mem::swap(&mut items, &mut self.items);
        items
    }

    /// Forgets the history.
    pub fn clear(&mut self)
        ensures
            final(self).wf(),
            final(self)@ == Seq::<T>::empty(),
            final(self).spec_capacity() == old(self).spec_capacity(),
    {
        self.items.clear();
    }
}

/// Mailbox for the latest user-facing message. A new message overwrites the
/// one that was waiting.
pub struct AlertSlot {
    text: Option<String>,
}

impl View for AlertSlot {
    type V = Option<Seq<char>>;

    closed spec fn view(&self) -> Option<Seq<char>> {
        match self.text {
            Some(t) => Some(t@),
            None => None,
        }
    }
}

impl AlertSlot {
    pub fn new() -> (slot: Self)
        ensures
            slot@ == None::<Seq<char>>,
    {
        AlertSlot { text: None }
    }

    /// Puts `text` in the slot, over whatever was there.
    pub fn post(&mut self, text: String)
        ensures
            final(self)@ == Some(text@),
    {
        self.text = Some(text);
    }

    pub fn is_some(&self) -> (full: bool)
        ensures
            full == (self@ is Some),
    {
        self.text.is_some()
    }

    /// Takes the waiting message, if any, and leaves the slot empty.
    pub fn take(&mut self) -> (text: Option<String>)
        ensures
            crate::events::name_view(text) == old(self)@,
            final(self)@ == None::<Seq<char>>,
    {
        self.text.take()
    }
}

} // verus!
