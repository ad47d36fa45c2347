//! The symbol table: an open-addressing hash table whose collision chains
//! are threaded through the table itself.
//!
//! A string hashes to a slot in `[HASH_BASE, HASH_BASE + HASH_PRIME)`. When
//! that slot is taken by some other entry, the entry is chained to a slot
//! claimed downwards from the top of the table; `used` marks how far the
//! claiming has come.
use vstd::prelude::*;
use crate::xbuf::{zeros, SafelyZero, XBuf};
use crate::{BibtexError, HashPointer, StrIlk, StrNumber};

verus! {

/// The lowest slot in use; slot `0` stands for "no slot".
pub const HASH_BASE: usize = 1;

/// Number of slots.
pub const HASH_SIZE: usize = 35307;

/// The highest slot.
pub const HASH_MAX: usize = HASH_SIZE + HASH_BASE - 1;

/// Modulus of the hash function: the least prime that is at least 17/20 of `HASH_SIZE`.
pub const HASH_PRIME: usize = 30011;

/// The role that an entry plays for the style interpreter.
#[derive(Clone, Copy, Debug, PartialEq, Eq, Structural)]
pub enum FnClass {
    /// A built-in operator.
    Builtin,
    /// A function defined by the style file.
    Wizard,
    /// An integer literal.
    IntLit,
    /// A string literal.
    StrLit,
    /// A field of an entry.
    Field,
    /// An integer variable of an entry.
    IntEntryVar,
    /// A string variable of an entry.
    StrEntryVar,
    /// A global integer variable.
    IntGlblVar,
    /// A global string variable.
    StrGlblVar,
}

impl SafelyZero for FnClass {
    open spec fn zero_value() -> FnClass {
        FnClass::Builtin
    }

    fn zero() -> (z: FnClass) {
        FnClass::Builtin
    }
}

/// The table as plain sequences, one cell per slot.
pub struct HashView {
    /// The slot that follows in the chain, or `0` at the end of a chain.
    pub next: Seq<HashPointer>,
    /// The string held, or `0` for an empty slot.
    pub text: Seq<StrNumber>,
    /// The tag of the entry.
    pub ilk: Seq<StrIlk>,
    /// A number whose meaning depends on the kind of entry.
    pub ilk_info: Seq<i32>,
    /// The role of the entry.
    pub fn_type: Seq<FnClass>,
    /// Every slot claimed for a chain so far is at or above this mark.
    pub used: HashPointer,
    /// For each slot, when it was last claimed for a chain.
    pub stamp: Seq<nat>,
    /// The stamp that the next claimed slot gets.
    pub clock: nat,
}

/// Whether slot `p` links on to another slot, one that was claimed later.
pub open spec fn linked(next: Seq<HashPointer>, stamp: Seq<nat>, clock: nat, p: int) -> bool {
    &&& 0 <= p <= HASH_MAX
    &&& HASH_BASE <= next[p] <= HASH_MAX
    &&& stamp[p] < stamp[next[p] as int] < clock
}

/// Whether following links from slot `from` leads to slot `to`.
pub open spec fn leads_to(
    next: Seq<HashPointer>,
    stamp: Seq<nat>,
    clock: nat,
    from: int,
    to: int,
) -> bool
    decreases clock - stamp[from],
{
    from == to || (linked(next, stamp, clock, from) && leads_to(
        next,
        stamp,
        clock,
        next[from] as int,
        to,
    ))
}

/// The last slot of the chain that passes through slot `from`.
pub open spec fn last_of_chain(
    next: Seq<HashPointer>,
    stamp: Seq<nat>,
    clock: nat,
    from: int,
) -> int
    decreases clock - stamp[from],
{
    if linked(next, stamp, clock, from) {
        last_of_chain(next, stamp, clock, next[from] as int)
    } else {
        from
    }
}

/// Number of empty slots in `[HASH_BASE, below)`.
pub open spec fn count_free(text: Seq<StrNumber>, below: int) -> nat
    decreases below,
{
    if below <= HASH_BASE {
        0
    } else {
        count_free(text, below - 1) + if text[below - 1] == 0 {
            1nat
        } else {
            0nat
        }
    }
}

/// The highest empty slot in `[HASH_BASE, below)`, or `0` if there is none.
pub open spec fn highest_free(text: Seq<StrNumber>, below: int) -> int
    decreases below,
{
    if below <= HASH_BASE {
        0
    } else if text[below - 1] == 0 {
        below - 1
    } else {
        highest_free(text, below - 1)
    }
}

impl HashView {
    /// The empty table: every cell is zero and no slot has been claimed.
    pub open spec fn empty() -> HashView {
        HashView {
            next: zeros::<HashPointer>((HASH_MAX + 1) as nat),
            text: zeros::<StrNumber>((HASH_MAX + 1) as nat),
            ilk: zeros::<StrIlk>((HASH_MAX + 1) as nat),
            ilk_info: zeros::<i32>((HASH_MAX + 1) as nat),
            fn_type: zeros::<FnClass>((HASH_MAX + 1) as nat),
            used: (HASH_MAX + 1) as usize,
            stamp: Seq::new((HASH_MAX + 1) as nat, |p: int| 0nat),
            clock: 1,
        }
    }

    /// Whether `p` is a slot of the table.
    pub open spec fn is_slot(p: int) -> bool {
        HASH_BASE <= p <= HASH_MAX
    }

    /// Whether slot `p` links on to another slot, one that was claimed later.
    pub open spec fn linked(self, p: int) -> bool {
        linked(self.next, self.stamp, self.clock, p)
    }

    /// The table's invariant: every column has one cell per slot, and links
    /// start at taken slots and lead to slots that were claimed later.
    pub open spec fn wf(self) -> bool {
        &&& self.next.len() == HASH_MAX + 1
        &&& self.text.len() == HASH_MAX + 1
        &&& self.ilk.len() == HASH_MAX + 1
        &&& self.ilk_info.len() == HASH_MAX + 1
        &&& self.fn_type.len() == HASH_MAX + 1
        &&& self.stamp.len() == HASH_MAX + 1
        &&& HASH_BASE <= self.used <= HASH_MAX + 1
        &&& forall|p: int| 0 <= p <= HASH_MAX ==> #[trigger] self.stamp[p] < self.clock
        &&& forall|p: int|
            0 <= p <= HASH_MAX && #[trigger] self.next[p] != 0 ==> self.text[p] != 0
                && self.linked(p)
    }

    /// Whether following links from slot `from` leads to slot `to`.
    pub open spec fn reaches(self, from: int, to: int) -> bool {
        leads_to(self.next, self.stamp, self.clock, from, to)
    }

    /// The last slot of the chain that passes through slot `from`.
    pub open spec fn chain_end(self, from: int) -> int {
        last_of_chain(self.next, self.stamp, self.clock, from)
    }

    /// Number of empty slots that can still be claimed for a chain.
    pub open spec fn free_slots(self) -> nat {
        count_free(self.text, self.used as int)
    }

    /// The table after the claimed slot `slot` was chained to slot `tail`.
    pub open spec fn chain(self, tail: int, slot: int) -> HashView {
        HashView {
            next: self.next.update(tail, slot as usize),
            stamp: self.stamp.update(slot, self.clock),
            clock: self.clock + 1,
            ..self
        }
    }

    /// The table after slot `slot` took the entry `(text, ilk)`.
    pub open spec fn fill(self, slot: int, text: StrNumber, ilk: StrIlk) -> HashView {
        HashView { text: self.text.update(slot, text), ilk: self.ilk.update(slot, ilk), ..self }
    }
}

/// A chain that leads from `a` to `b` also leads to the slot that `b` links to.
pub proof fn lemma_reaches_next(t: HashView, a: int, b: int)
    requires
        t.reaches(a, b),
        t.linked(b),
    ensures
        t.reaches(a, t.next[b] as int),
    decreases t.clock - t.stamp[a],
{
    if a != b {
        lemma_reaches_next(t, t.next[a] as int, b);
    } else {
        assert(t.reaches(t.next[b] as int, t.next[b] as int));
    }
}

/// Every chain ends, in a slot that links no further.
pub proof fn lemma_chain_end(t: HashView, a: int)
    requires
        0 <= a <= HASH_MAX,
    ensures
        0 <= t.chain_end(a) <= HASH_MAX,
        a >= HASH_BASE ==> t.chain_end(a) >= HASH_BASE,
        !t.linked(t.chain_end(a)),
        t.reaches(a, t.chain_end(a)),
    decreases t.clock - t.stamp[a],
{
    if t.linked(a) {
        lemma_chain_end(t, t.next[a] as int);
    }
}

/// A slot on the way from `a` to the end of its chain has the same end.
pub proof fn lemma_reaches_same_end(t: HashView, a: int, b: int)
    requires
        t.reaches(a, b),
    ensures
        t.chain_end(a) == t.chain_end(b),
    decreases t.clock - t.stamp[a],
{
    if a != b {
        lemma_reaches_same_end(t, t.next[a] as int, b);
    }
}

/// Chaining a fresh slot to the end of a chain keeps the table's invariant.
pub proof fn lemma_chain_wf(t: HashView, tail: int, slot: int)
    requires
        t.wf(),
        HashView::is_slot(tail),
        HashView::is_slot(slot),
        t.text[tail] != 0,
        t.next[tail] == 0,
        t.text[slot] == 0,
    ensures
        t.chain(tail, slot).wf(),
{
    let u = t.chain(tail, slot);
    assert forall|p: int| 0 <= p <= HASH_MAX implies #[trigger] u.stamp[p] < u.clock by {
        assert(t.stamp[p] < t.clock);
    }
    assert forall|p: int| 0 <= p <= HASH_MAX && #[trigger] u.next[p] != 0 implies u.text[p] != 0
        && u.linked(p) by {
        assert(t.stamp[p] < t.clock);
        if p != tail {
            assert(t.next[p] != 0);
            assert(t.linked(p));
            assert(t.next[slot] == 0);
        }
    }
}

/// Chaining a fresh slot to the end of a chain keeps every path that was there.
pub proof fn lemma_chain_keeps_paths(t: HashView, tail: int, slot: int, a: int, b: int)
    requires
        t.wf(),
        HashView::is_slot(tail),
        HashView::is_slot(slot),
        t.text[tail] != 0,
        t.next[tail] == 0,
        t.text[slot] == 0,
        t.reaches(a, b),
    ensures
        t.chain(tail, slot).reaches(a, b),
    decreases t.clock - t.stamp[a],
{
    let u = t.chain(tail, slot);
    if a != b {
        let n = t.next[a] as int;
        assert(t.linked(a));
        assert(a != tail);
        assert(t.next[a] != 0);
        assert(t.next[slot] == 0);
        assert(a != slot);
        assert(t.stamp[a] < t.clock);
        assert(u.linked(a));
        lemma_chain_keeps_paths(t, tail, slot, n, b);
    }
}

/// After chaining `slot` to `tail`, whatever led to `tail` leads on to `slot`, where the chain ends.
pub proof fn lemma_chain_extends(t: HashView, tail: int, slot: int, a: int)
    requires
        t.wf(),
        HashView::is_slot(tail),
        HashView::is_slot(slot),
        t.text[tail] != 0,
        t.next[tail] == 0,
        t.text[slot] == 0,
        t.reaches(a, tail),
    ensures
        t.chain(tail, slot).reaches(a, slot),
        t.chain(tail, slot).chain_end(a) == slot,
{
    let u = t.chain(tail, slot);
    lemma_chain_keeps_paths(t, tail, slot, a, tail);
    assert(t.stamp[tail] < t.clock);
    assert(u.linked(tail));
    lemma_reaches_next(u, a, tail);
    lemma_reaches_same_end(u, a, slot);
    assert(t.next[slot] == 0);
    assert(!u.linked(slot));
}

/// Filling in cells of an empty range leaves the count of free slots below it alone.
pub proof fn lemma_count_free_above(text: Seq<StrNumber>, below: int, pos: int, value: StrNumber)
    requires
        below <= pos < text.len(),
    ensures
        count_free(text.update(pos, value), below) == count_free(text, below),
        highest_free(text.update(pos, value), below) == highest_free(text, below),
    decreases below,
{
    if below > HASH_BASE {
        lemma_count_free_above(text, below - 1, pos, value);
    }
}

/// Taking an empty slot below the mark leaves one free slot less.
pub proof fn lemma_count_free_taken(text: Seq<StrNumber>, below: int, pos: int, value: StrNumber)
    requires
        HASH_BASE <= pos < below <= text.len(),
        text[pos] == 0,
        value != 0,
    ensures
        count_free(text.update(pos, value), below) == count_free(text, below) - 1,
    decreases below,
{
    if pos == below - 1 {
        lemma_count_free_above(text, below - 1, pos, value);
    } else {
        lemma_count_free_taken(text, below - 1, pos, value);
    }
}

/// Where every slot below the mark is empty, every one of them is free.
pub proof fn lemma_count_free_empty(text: Seq<StrNumber>, below: int)
    requires
        HASH_BASE <= below <= text.len(),
        forall|q: int| HASH_BASE <= q < below ==> #[trigger] text[q] == 0,
    ensures
        count_free(text, below) == below - HASH_BASE,
    decreases below,
{
    if below > HASH_BASE {
        lemma_count_free_empty(text, below - 1);
    }
}

/// What the highest free slot is, and that there is none exactly when no slot is free.
pub proof fn lemma_highest_free(text: Seq<StrNumber>, below: int)
    requires
        below <= text.len(),
    ensures
        count_free(text, below) == 0 <==> highest_free(text, below) == 0,
        highest_free(text, below) == 0 ==> forall|q: int|
            HASH_BASE <= q < below ==> #[trigger] text[q] != 0,
        highest_free(text, below) != 0 ==> {
            &&& HASH_BASE <= highest_free(text, below) < below
            &&& text[highest_free(text, below)] == 0
            &&& forall|q: int| highest_free(text, below) < q < below ==> #[trigger] text[q] != 0
            &&& count_free(text, highest_free(text, below)) == count_free(text, below) - 1
        },
    decreases below,
{
    if below > HASH_BASE {
        lemma_highest_free(text, below - 1);
    }
}

/// The symbol table.
pub struct HashData {
    hash_next: XBuf<HashPointer>,
    hash_text: XBuf<StrNumber>,
    hash_ilk: XBuf<StrIlk>,
    ilk_info: XBuf<i32>,
    fn_type: XBuf<FnClass>,
    hash_used: usize,
    stamp: Ghost<Seq<nat>>,
    clock: Ghost<nat>,
}

impl View for HashData {
    type V = HashView;

    closed spec fn view(&self) -> HashView {
        HashView {
            next: self.hash_next@,
            text: self.hash_text@,
            ilk: self.hash_ilk@,
            ilk_info: self.ilk_info@,
            fn_type: self.fn_type@,
            used: self.hash_used,
            stamp: self.stamp@,
            clock: self.clock@,
        }
    }
}

impl HashData {
    /// The table's invariant.
    pub open spec fn wf(&self) -> bool {
        self@.wf()
    }

    /// An empty table.
    pub fn new() -> (hash: HashData)
        ensures
            hash.wf(),
            hash@ == HashView::empty(),
    {
        HashData {
            hash_next: XBuf::new(HASH_MAX),
            hash_text: XBuf::new(HASH_MAX),
            hash_ilk: XBuf::new(HASH_MAX),
            ilk_info: XBuf::new(HASH_MAX),
            fn_type: XBuf::new(HASH_MAX),
            hash_used: HASH_MAX + 1,
            stamp: Ghost(Seq::new((HASH_MAX + 1) as nat, |p: int| 0nat)),
            clock: Ghost(1nat),
        }
    }

    /// The string held by slot `pos`, or `0` if the slot is empty.
    pub fn text(&self, pos: HashPointer) -> (s: StrNumber)
        requires
            self.wf(),
            pos <= HASH_MAX,
        ensures
            s == self@.text[pos as int],
    {
        self.hash_text.get(pos)
    }

    /// The slot that follows slot `pos` in its chain, or `0` at the end.
    pub fn next(&self, pos: HashPointer) -> (p: HashPointer)
        requires
            self.wf(),
            pos <= HASH_MAX,
        ensures
            p == self@.next[pos as int],
    {
        self.hash_next.get(pos)
    }

    /// The tag of the entry in slot `pos`.
    pub fn hash_ilk(&self, pos: HashPointer) -> (ilk: StrIlk)
        requires
            self.wf(),
            pos <= HASH_MAX,
        ensures
            ilk == self@.ilk[pos as int],
    {
        self.hash_ilk.get(pos)
    }

    /// The auxiliary number of slot `pos`.
    pub fn ilk_info(&self, pos: HashPointer) -> (info: i32)
        requires
            self.wf(),
            pos <= HASH_MAX,
        ensures
            info == self@.ilk_info[pos as int],
    {
        self.ilk_info.get(pos)
    }

    /// Sets the auxiliary number of slot `pos`; nothing else changes.
    pub fn set_ilk_info(&mut self, pos: HashPointer, info: i32)
        requires
            old(self).wf(),
            pos <= HASH_MAX,
        ensures
            final(self).wf(),
            final(self)@ == (HashView {
                ilk_info: old(self)@.ilk_info.update(pos as int, info),
                ..old(self)@
            }),
    {
        self.ilk_info.set(pos, info);
    }

    /// The role of the entry in slot `pos`.
    pub fn ty(&self, pos: HashPointer) -> (class: FnClass)
        requires
            self.wf(),
            pos <= HASH_MAX,
        ensures
            class == self@.fn_type[pos as int],
    {
        self.fn_type.get(pos)
    }

    /// Sets the role of the entry in slot `pos`; nothing else changes.
    pub fn set_ty(&mut self, pos: HashPointer, class: FnClass)
        requires
            old(self).wf(),
            pos <= HASH_MAX,
        ensures
            final(self).wf(),
            final(self)@ == (HashView {
                fn_type: old(self)@.fn_type.update(pos as int, class),
                ..old(self)@
            }),
    {
        self.fn_type.set(pos, class);
    }

    /// The mark below which no slot has been claimed for a chain.
    pub fn used(&self) -> (mark: HashPointer)
        ensures
            mark == self@.used,
    {
        self.hash_used
    }

    /// The modulus of the hash function.
    pub fn prime(&self) -> (prime: usize)
        ensures
            prime == HASH_PRIME,
    {
        HASH_PRIME
    }

    /// Moves the claiming mark.
    pub(crate) fn set_used(&mut self, mark: HashPointer)
        requires
            old(self).wf(),
            HASH_BASE <= mark <= HASH_MAX + 1,
        ensures
            final(self)@ == (HashView { used: mark, ..old(self)@ }),
    {
        self.hash_used = mark;
    }

    /// Chains the empty slot `slot` to the end of the chain that ends in `tail`.
    pub(crate) fn set_next(&mut self, tail: HashPointer, slot: HashPointer)
        requires
            old(self).wf(),
            HASH_BASE <= tail <= HASH_MAX,
            HASH_BASE <= slot <= HASH_MAX,
            old(self)@.text[tail as int] != 0,
            old(self)@.next[tail as int] == 0,
            old(self)@.text[slot as int] == 0,
        ensures
            final(self)@ == old(self)@.chain(tail as int, slot as int),
    {
        self.hash_next.set(tail, slot);
        proof {
            self.stamp@ = self.stamp@.update(slot as int, self.clock@);
            self.clock@ = self.clock@ + 1;
        }
    }

    /// Claims the highest free slot below the claiming mark and chains it
    /// to `tail`, the taken slot in which a chain ends.
    pub(crate) fn claim_slot(&mut self, tail: HashPointer) -> (r: Result<HashPointer, BibtexError>)
        requires
            old(self).wf(),
            HASH_BASE <= tail <= HASH_MAX,
            old(self)@.text[tail as int] != 0,
            old(self)@.next[tail as int] == 0,
        ensures
            match r {
                Ok(slot) => {
                    &&& slot != 0
                    &&& slot == highest_free(old(self)@.text, old(self)@.used as int)
                    &&& final(self)@ == (HashView {
                        used: slot,
                        ..old(self)@.chain(tail as int, slot as int)
                    })
                },
                Err(e) => {
                    &&& e == BibtexError::HashOverflow
                    &&& highest_free(old(self)@.text, old(self)@.used as int) == 0
                    &&& final(self)@ == (HashView { used: HASH_BASE, ..old(self)@ })
                },
            },
    {
        loop
            invariant_except_break
                highest_free(self@.text, self@.used as int) == highest_free(
                    old(self)@.text,
                    old(self)@.used as int,
                ),
            invariant
                self.wf(),
                self@ == (HashView { used: self@.used, ..old(self)@ }),
            ensures
                HASH_BASE <= self@.used <= HASH_MAX,
                self@.text[self@.used as int] == 0,
                self@.used == highest_free(old(self)@.text, old(self)@.used as int),
            decreases self@.used,
        {
            if self.used() == HASH_BASE {
                return Err(BibtexError::HashOverflow);
            }
            self.set_used(self.used() - 1);
            if self.text(self.used()) == 0 {
                break ;
            }
        }
        let slot = self.used();
        self.set_next(tail, slot);
        Ok(slot)
    }

    /// Puts the string `text` into slot `pos`.
    pub(crate) fn set_text(&mut self, pos: HashPointer, text: StrNumber)
        requires
            old(self).wf(),
            pos <= HASH_MAX,
        ensures
            final(self)@ == (HashView {
                text: old(self)@.text.update(pos as int, text),
                ..old(self)@
            }),
    {
        self.hash_text.set(pos, text);
    }

    /// Sets the tag of slot `pos`.
    pub(crate) fn set_hash_ilk(&mut self, pos: HashPointer, ilk: StrIlk)
        requires
            old(self).wf(),
            pos <= HASH_MAX,
        ensures
            final(self)@ == (HashView {
                ilk: old(self)@.ilk.update(pos as int, ilk),
                ..old(self)@
            }),
    {
        self.hash_ilk.set(pos, ilk);
    }
}

} // verus!
