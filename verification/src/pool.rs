//! The string pool: interned byte strings, each under a stable number.
//!
//! The bytes of all strings lie end to end in one arena; a second arena
//! holds the offset at which each string starts. A string is found again
//! through the symbol table, by its bytes and the tag it was interned under.
use vstd::prelude::*;
use vstd::pervasive::unreached;
use crate::hash::{HashData, HashView, HASH_BASE, HASH_PRIME};
use crate::symbols::{
    appends, consistent, find, has_bytes, holds, intern, lemma_entry, lemma_intern, lemma_number,
    lemma_slot_for, number_of, numbered,
};
use crate::xbuf::XBuf;
use crate::{
    ASCIICode, BibtexError, BufPointer, HashPointer, LookupRes, PoolPointer, StrIlk, StrNumber,
};

verus! {

/// Initial size of the byte arena, and the step by which it grows.
pub const POOL_SIZE: usize = 65000;

/// String numbers stay below this bound; number `0` is never handed out.
pub const MAX_STRINGS: usize = 35307;

/// How far past the next free string number a lookup by number may reach
/// before the number counts as not existing.
pub const STR_SLACK: usize = 3;

/// Why a string number could not be resolved.
#[derive(Clone, Copy, Debug, PartialEq, Eq, Structural)]
pub enum LookupErr {
    /// The number is at or above `MAX_STRINGS`.
    Invalid,
    /// The number is `0`, or too far past the strings made so far.
    DoesntExist,
}

/// The size of an arena of size `capacity` once it has grown, step by step, to hold `need` bytes.
pub open spec fn grown(capacity: nat, need: nat) -> nat
    decreases (if need > capacity { need - capacity } else { 0 }),
{
    if need <= capacity {
        capacity
    } else {
        grown(capacity + POOL_SIZE as nat, need)
    }
}

/// The hash of a byte string: `(2 * h + byte) mod HASH_PRIME`, byte by byte from the left.
pub open spec fn hash_of(bytes: Seq<u8>) -> nat
    decreases bytes.len(),
{
    if bytes.len() == 0 {
        0
    } else {
        ((2 * hash_of(bytes.drop_last()) + bytes.last()) % (HASH_PRIME as int)) as nat
    }
}

/// The slot at which the search for a byte string starts.
pub open spec fn home_slot(bytes: Seq<u8>) -> int {
    hash_of(bytes) + HASH_BASE
}

/// Every hash is below the modulus, so every home slot is a slot of the table.
pub proof fn lemma_home_slot(bytes: Seq<u8>)
    ensures
        hash_of(bytes) < HASH_PRIME,
        HashView::is_slot(home_slot(bytes)),
{
}

/// Whether two byte strings are the same.
fn bytes_eq(a: &[ASCIICode], b: &[ASCIICode]) -> (same: bool)
    ensures
        same == (a@ == b@),
{
    if a.len() != b.len() {
        return false;
    }
    let mut pos: usize = 0;
    while pos < a.len()
        invariant
            pos <= a.len(),
            a.len() == b.len(),
            forall|i: int| 0 <= i < pos ==> a@[i] == b@[i],
        decreases a.len() - pos,
    {
        if a[pos] != b[pos] {
            return false;
        }
        pos += 1;
    }
    assert(a@ =~= b@);
    true
}

/// The string pool. Its view is the sequence of its strings by number;
/// number `0` is reserved and stands for the empty sequence.
pub struct StringPool {
    strings: XBuf<ASCIICode>,
    // String `s` lies at `offsets[s] .. offsets[s + 1]` of `strings`.
    offsets: XBuf<PoolPointer>,
    pool_ptr: PoolPointer,
    str_ptr: StrNumber,
}

impl View for StringPool {
    type V = Seq<Seq<u8>>;

    closed spec fn view(&self) -> Seq<Seq<u8>> {
        Seq::new(
            self.str_ptr as nat,
            |s: int|
                if s == 0 {
                    Seq::<u8>::empty()
                } else {
                    self.strings@.subrange(self.offsets@[s] as int, self.offsets@[s + 1] as int)
                },
        )
    }
}

impl StringPool {
    /// Offsets rise with the string number, stay within the bytes written,
    /// and are zero past the strings made so far.
    spec fn laid_out(&self) -> bool {
        &&& self.offsets@.len() == MAX_STRINGS + 1
        &&& 1 <= self.str_ptr <= MAX_STRINGS
        &&& self.offsets@[self.str_ptr as int] <= self.pool_ptr <= self.strings@.len()
        &&& forall|i: int, j: int|
            1 <= i <= j <= self.str_ptr ==> #[trigger] self.offsets@[i] <= #[trigger] self.offsets@[j]
        &&& forall|k: int| self.str_ptr < k <= MAX_STRINGS ==> #[trigger] self.offsets@[k] == 0
    }

    /// The pool's invariant: the strings are laid out in order, and the next
    /// string, if there can be one, starts where the bytes written end.
    pub closed spec fn wf(&self) -> bool {
        &&& self.laid_out()
        &&& self.str_ptr < MAX_STRINGS ==> self.offsets@[self.str_ptr as int] == self.pool_ptr
    }

    /// Size of the byte arena.
    pub closed spec fn capacity(&self) -> nat {
        self.strings@.len()
    }

    /// Number of bytes of the arena that have been written.
    pub closed spec fn end(&self) -> nat {
        self.pool_ptr as nat
    }

    /// The bytes of string `s`; empty where no such string has been made.
    pub open spec fn bytes_of(&self, s: int) -> Seq<u8> {
        if 0 < s < self@.len() {
            self@[s]
        } else {
            Seq::empty()
        }
    }

    /// An empty pool: no string but the reserved number `0`, and an arena of `POOL_SIZE + 1` bytes.
    pub fn new() -> (pool: StringPool)
        ensures
            pool.wf(),
            pool@ == seq![Seq::<u8>::empty()],
            pool.capacity() == POOL_SIZE + 1,
            pool.end() == 0,
    {
        let pool = StringPool {
            strings: XBuf::new(POOL_SIZE),
            offsets: XBuf::new(MAX_STRINGS),
            pool_ptr: 0,
            str_ptr: 1,
        };
        assert(pool@ =~= seq![Seq::<u8>::empty()]);
        pool
    }

    /// The bytes of string `s`, or why `s` names no string.
    ///
    /// A number from the next free one up to `STR_SLACK` past it names a
    /// string that has not been made yet: its bytes are empty.
    pub fn try_get_str(&self, s: StrNumber) -> (r: Result<&[ASCIICode], LookupErr>)
        requires
            self.wf(),
        ensures
            match r {
                Err(LookupErr::DoesntExist) => s == 0 || s >= self@.len() + STR_SLACK,
                Err(LookupErr::Invalid) => 0 < s < self@.len() + STR_SLACK && s >= MAX_STRINGS,
                Ok(bytes) => 0 < s < self@.len() + STR_SLACK && s < MAX_STRINGS && bytes@
                    == self.bytes_of(s as int),
            },
    {
        if s == 0 || s >= self.str_ptr + STR_SLACK {
            Err(LookupErr::DoesntExist)
        } else if s >= MAX_STRINGS {
            Err(LookupErr::Invalid)
        } else if s < self.str_ptr {
            Ok(self.strings.slice(self.offsets.get(s), self.offsets.get(s + 1)))
        } else {
            Ok(self.strings.slice(self.pool_ptr, self.pool_ptr))
        }
    }

    /// The bytes of string `s`.
    pub fn get_str(&self, s: StrNumber) -> (bytes: &[ASCIICode])
        requires
            self.wf(),
            0 < s < self@.len() + STR_SLACK,
            s < MAX_STRINGS,
        ensures
            bytes@ == self.bytes_of(s as int),
    {
        match self.try_get_str(s) {
            Ok(bytes) => bytes,
            Err(_) => unreached(),
        }
    }

    /// Whether strings `s1` and `s2` have the same bytes.
    pub fn str_eq_str(&self, s1: StrNumber, s2: StrNumber) -> (same: bool)
        requires
            self.wf(),
            0 < s1 < self@.len() + STR_SLACK,
            s1 < MAX_STRINGS,
            0 < s2 < self@.len() + STR_SLACK,
            s2 < MAX_STRINGS,
        ensures
            same == (self.bytes_of(s1 as int) == self.bytes_of(s2 as int)),
    {
        bytes_eq(self.get_str(s1), self.get_str(s2))
    }

    /// Size of the byte arena.
    pub fn size(&self) -> (n: usize)
        ensures
            n == self.capacity(),
    {
        self.strings.len()
    }

    /// Number of bytes of the arena that have been written.
    pub fn pool_ptr(&self) -> (n: PoolPointer)
        ensures
            n == self.end(),
    {
        self.pool_ptr
    }

    /// The number that the next new string gets.
    pub fn str_ptr(&self) -> (n: StrNumber)
        ensures
            n == self@.len(),
    {
        self.str_ptr
    }

    /// Enlarges the byte arena by `POOL_SIZE`; every string keeps its number and its bytes.
    pub fn grow(&mut self)
        requires
            old(self).wf(),
        ensures
            final(self).wf(),
            final(self)@ == old(self)@,
            final(self).capacity() == old(self).capacity() + POOL_SIZE,
            final(self).end() == old(self).end(),
    {
        self.strings.grow(POOL_SIZE);
        proof {
            self.lemma_same_strings(*old(self));
        }
    }

    /// Two pools with the same offsets, whose arenas agree on the bytes written, hold the same strings.
    proof fn lemma_same_strings(&self, before: StringPool)
        requires
            before.laid_out(),
            self.offsets == before.offsets,
            self.str_ptr == before.str_ptr,
            before.strings@.len() <= self.strings@.len(),
            forall|i: int|
                0 <= i < before.offsets@[before.str_ptr as int] ==> self.strings@[i]
                    == before.strings@[i],
        ensures
            self@ == before@,
    {
        assert forall|s: int| 0 <= s < self.str_ptr implies self@[s] == before@[s] by {
            if s != 0 {
                assert(before.offsets@[s] <= before.offsets@[s + 1]);
                assert(before.offsets@[s + 1] <= before.offsets@[before.str_ptr as int]);
                assert(self@[s] =~= before@[s]);
            }
        }
        assert(self@ =~= before@);
    }

    /// Declares the bytes written since the last string to be a new string,
    /// and returns its number.
    fn make_string(&mut self) -> (r: Result<StrNumber, BibtexError>)
        requires
            old(self).laid_out(),
        ensures
            final(self).wf(),
            final(self).strings == old(self).strings,
            final(self).pool_ptr == old(self).pool_ptr,
            match r {
                Ok(s) => {
                    &&& old(self).str_ptr < MAX_STRINGS
                    &&& s == old(self).str_ptr
                    &&& final(self)@ == old(self)@.push(
                        old(self).strings@.subrange(
                            old(self).offsets@[old(self).str_ptr as int] as int,
                            old(self).pool_ptr as int,
                        ),
                    )
                },
                Err(e) => {
                    &&& old(self).str_ptr == MAX_STRINGS
                    &&& e == BibtexError::StringOverflow
                    &&& final(self)@ == old(self)@
                },
            },
    {
        if self.str_ptr == MAX_STRINGS {
            return Err(BibtexError::StringOverflow);
        }
        self.str_ptr += 1;
        self.offsets.set(self.str_ptr, self.pool_ptr);
        proof {
            let before = *old(self);
            let made = before.strings@.subrange(
                before.offsets@[before.str_ptr as int] as int,
                before.pool_ptr as int,
            );
            assert forall|i: int, j: int| 1 <= i <= j <= self.str_ptr implies #[trigger] self.offsets@[i]
                <= #[trigger] self.offsets@[j] by {
                if j < self.str_ptr {
                    assert(before.offsets@[i] <= before.offsets@[j]);
                } else if i < self.str_ptr {
                    assert(before.offsets@[i] <= before.offsets@[before.str_ptr as int]);
                }
            }
            assert forall|s: int| 0 <= s < self.str_ptr implies self@[s] == before@.push(made)[s] by {
                if s != 0 {
                    assert(self@[s] =~= before@.push(made)[s]);
                }
            }
            assert(self@ =~= before@.push(made));
        }
        Ok(self.str_ptr - 1)
    }

    /// The hash of a byte string.
    pub fn hash_str(hash: &HashData, str: &[ASCIICode]) -> (h: usize)
        ensures
            h == hash_of(str@),
            h < HASH_PRIME,
    {
        let prime = hash.prime();
        let mut h: usize = 0;
        let mut pos: usize = 0;
        while pos < str.len()
            invariant
                pos <= str.len(),
                prime == HASH_PRIME,
                h < HASH_PRIME,
                h == hash_of(str@.take(pos as int)),
            decreases str.len() - pos,
        {
            assert(str@.take(pos + 1).drop_last() =~= str@.take(pos as int));
            h = (2 * h + str[pos] as usize) % prime;
            pos += 1;
        }
        assert(str@.take(pos as int) =~= str@);
        h
    }

    /// Appends the bytes of `str` to the arena, which grows as needed, and
    /// makes them a new string.
    fn add_str(&mut self, str: &[ASCIICode]) -> (r: Result<StrNumber, BibtexError>)
        requires
            old(self).wf(),
        ensures
            final(self).wf(),
            final(self).end() == old(self).end() + str@.len(),
            final(self).capacity() == grown(old(self).capacity(), old(self).end() + str@.len()),
            match r {
                Ok(s) => {
                    &&& old(self)@.len() < MAX_STRINGS
                    &&& s == old(self)@.len()
                    &&& final(self)@ == old(self)@.push(str@)
                },
                Err(e) => {
                    &&& old(self)@.len() == MAX_STRINGS
                    &&& e == BibtexError::StringOverflow
                    &&& final(self)@ == old(self)@
                },
            },
    {
        while self.strings.len() - self.pool_ptr < str.len()
            invariant
                self.wf(),
                self@ == old(self)@,
                self.end() == old(self).end(),
                grown(self.capacity(), old(self).end() + str@.len()) == grown(
                    old(self).capacity(),
                    old(self).end() + str@.len(),
                ),
            decreases
                (if old(self).end() + str@.len() > self.capacity() {
                    old(self).end() + str@.len() - self.capacity()
                } else {
                    0
                }),
        {
            self.grow();
        }
        let ghost ready = *self;
        let size = self.strings.len();
        let mut pos: usize = 0;
        while pos < str.len()
            invariant
                pos <= str.len(),
                size == self.strings@.len(),
                self.pool_ptr == ready.pool_ptr,
                self.str_ptr == ready.str_ptr,
                self.offsets == ready.offsets,
                self.strings@.len() == ready.strings@.len(),
                self.pool_ptr + str.len() <= self.strings@.len(),
                forall|i: int| 0 <= i < self.pool_ptr ==> self.strings@[i] == ready.strings@[i],
                forall|i: int| 0 <= i < pos ==> self.strings@[self.pool_ptr + i] == str@[i],
            decreases str.len() - pos,
        {
            self.strings.set(self.pool_ptr + pos, str[pos]);
            pos += 1;
        }
        let ghost start = self.pool_ptr;
        self.pool_ptr += str.len();
        proof {
            self.lemma_same_strings(ready);
            assert(self.strings@.subrange(start as int, self.pool_ptr as int) =~= str@);
        }
        self.make_string()
    }

    /// Looks `(str, ilk)` up without changing anything.
    ///
    /// Returns the slot of the entry if there is one; otherwise the last
    /// slot of the chain that the entry would be on.
    pub fn lookup_str(&self, hash: &HashData, str: &[ASCIICode], ilk: StrIlk) -> (res: LookupRes)
        requires
            self.wf(),
            consistent(self@, hash@),
        ensures
            res == find(self@, hash@, str@, ilk),
    {
        let h = Self::hash_str(hash, str);
        let mut p: HashPointer = h + HASH_BASE;
        proof {
            lemma_home_slot(str@);
        }
        loop
            invariant
                self.wf(),
                consistent(self@, hash@),
                HashView::is_slot(p as int),
                hash@.chain_end(p as int) == hash@.chain_end(home_slot(str@)),
                forall|q: int| holds(self@, hash@, q, str@, ilk) ==> hash@.reaches(p as int, q),
            decreases hash@.clock - hash@.stamp[p as int],
        {
            let existing = hash.text(p);
            if existing > 0 && bytes_eq(self.get_str(existing), str) && hash.hash_ilk(p) == ilk {
                proof {
                    lemma_entry(self@, hash@, p as int, str@, ilk);
                }
                return LookupRes { loc: p, exists: true };
            }
            if hash.next(p) == 0 {
                proof {
                    assert(!hash@.linked(p as int));
                    assert forall|q: int| !holds(self@, hash@, q, str@, ilk) by {
                        if holds(self@, hash@, q, str@, ilk) {
                            assert(hash@.reaches(p as int, q));
                        }
                    }
                }
                return LookupRes { loc: p, exists: false };
            }
            proof {
                assert(hash@.linked(p as int));
                assert forall|q: int| holds(self@, hash@, q, str@, ilk) implies hash@.reaches(
                    hash@.next[p as int] as int,
                    q,
                ) by {
                    assert(hash@.reaches(p as int, q));
                }
            }
            p = hash.next(p);
        }
    }

    /// Looks `(str, ilk)` up and makes it an entry if it is none.
    ///
    /// The result, and the strings and the table afterwards, are those of
    /// `intern`. The bytes are written to the arena only where the entry
    /// needs a string number of its own; the arena grows to hold them.
    pub fn lookup_str_insert(
        &mut self,
        hash: &mut HashData,
        str: &[ASCIICode],
        ilk: StrIlk,
    ) -> (r: Result<LookupRes, BibtexError>)
        requires
            old(self).wf(),
            consistent(old(self)@, old(hash)@),
        ensures
            final(self).wf(),
            consistent(final(self)@, final(hash)@),
            final(self)@ == intern(old(self)@, old(hash)@, str@, ilk).0,
            final(hash)@ == intern(old(self)@, old(hash)@, str@, ilk).1,
            r == intern(old(self)@, old(hash)@, str@, ilk).2,
            final(self).end() == if appends(old(self)@, old(hash)@, str@, ilk) {
                old(self).end() + str@.len()
            } else {
                old(self).end()
            },
            final(self).capacity() == if appends(old(self)@, old(hash)@, str@, ilk) {
                grown(old(self).capacity(), old(self).end() + str@.len())
            } else {
                old(self).capacity()
            },
    {
        let h = Self::hash_str(hash, str);
        let mut str_num: StrNumber = 0;
        let mut p: HashPointer = h + HASH_BASE;
        proof {
            lemma_home_slot(str@);
        }
        loop
            invariant
                *self == *old(self),
                *hash == *old(hash),
                self.wf(),
                consistent(self@, hash@),
                HashView::is_slot(p as int),
                hash@.chain_end(p as int) == hash@.chain_end(home_slot(str@)),
                forall|q: int| holds(self@, hash@, q, str@, ilk) ==> hash@.reaches(p as int, q),
                str_num == 0 ==> forall|q: int|
                    has_bytes(self@, hash@, q, str@) ==> hash@.reaches(p as int, q),
                str_num != 0 ==> numbered(self@, hash@, str@) && str_num == number_of(
                    self@,
                    hash@,
                    str@,
                ),
            decreases hash@.clock - hash@.stamp[p as int],
        {
            let existing = hash.text(p);
            let same = existing > 0 && match self.try_get_str(existing) {
                Ok(found) => bytes_eq(found, str),
                Err(_) => false,
            };
            if same {
                if hash.hash_ilk(p) == ilk {
                    proof {
                        reveal(intern);
                        lemma_entry(self@, hash@, p as int, str@, ilk);
                    }
                    return Ok(LookupRes { loc: p, exists: true });
                } else {
                    proof {
                        lemma_number(self@, hash@, p as int, str@);
                    }
                    str_num = existing;
                }
            }
            if hash.next(p) == 0 {
                proof {
                    assert(!hash@.linked(p as int));
                    assert forall|q: int| !holds(self@, hash@, q, str@, ilk) by {
                        if holds(self@, hash@, q, str@, ilk) {
                            assert(hash@.reaches(p as int, q));
                        }
                    }
                    if str_num == 0 {
                        assert forall|q: int| !has_bytes(self@, hash@, q, str@) by {
                            if has_bytes(self@, hash@, q, str@) {
                                assert(hash@.reaches(p as int, q));
                            }
                        }
                    }
                    reveal(intern);
                    lemma_slot_for(hash@, str@);
                    lemma_intern(self@, hash@, str@, ilk);
                }
                if existing > 0 {
                    match hash.claim_slot(p) {
                        Ok(slot) => {
                            p = slot;
                        },
                        Err(e) => {
                            return Err(e);
                        },
                    }
                }
                if str_num > 0 {
                    hash.set_text(p, str_num);
                } else {
                    match self.add_str(str) {
                        Ok(s) => {
                            hash.set_text(p, s);
                        },
                        Err(e) => {
                            return Err(e);
                        },
                    }
                }
                hash.set_hash_ilk(p, ilk);
                return Ok(LookupRes { loc: p, exists: false });
            }
            proof {
                assert(hash@.linked(p as int));
                assert forall|q: int| holds(self@, hash@, q, str@, ilk) implies hash@.reaches(
                    hash@.next[p as int] as int,
                    q,
                ) by {
                    assert(hash@.reaches(p as int, q));
                }
                if str_num == 0 {
                    assert forall|q: int| has_bytes(self@, hash@, q, str@) implies hash@.reaches(
                        hash@.next[p as int] as int,
                        q,
                    ) by {
                        assert(hash@.reaches(p as int, q));
                    }
                }
            }
            p = hash.next(p);
        }
    }
}

/// Puts `pool` back into the state that `StringPool::new` gives.
pub fn reset(pool: &mut StringPool)
    ensures
        final(pool).wf(),
        final(pool)@ == seq![Seq::<u8>::empty()],
        final(pool).capacity() == POOL_SIZE + 1,
        final(pool).end() == 0,
{
    *pool = StringPool::new();
}

/// Calls `f` on the pool and returns what it returns.
pub fn with_pool<T, F: FnOnce(&StringPool) -> T>(pool: &StringPool, f: F) -> (r: T)
    requires
        f.requires((pool,)),
    ensures
        f.ensures((pool,), r),
{
    f(pool)
}

/// Calls `f` on the pool, which it may change, and returns what it returns.
pub fn with_pool_mut<T, F: FnOnce(&mut StringPool) -> T>(pool: &mut StringPool, f: F) -> (r: T)
    requires
        forall|p: &mut StringPool| *p == *old(pool) ==> f.requires((p,)),
    ensures
        exists|p: &mut StringPool|
            *p == *old(pool) && *final(p) == *final(pool) && f.ensures((p,), r),
{
    f(pool)
}

/// Looks up the `len` bytes of `buffer` that start at `ptr`, under the tag
/// `ilk`; with `insert`, makes them an entry if they are none.
pub fn str_lookup(
    pool: &mut StringPool,
    hash: &mut HashData,
    buffer: &[ASCIICode],
    ptr: BufPointer,
    len: BufPointer,
    ilk: StrIlk,
    insert: bool,
) -> (r: Result<LookupRes, BibtexError>)
    requires
        old(pool).wf(),
        consistent(old(pool)@, old(hash)@),
        ptr + len <= buffer@.len(),
    ensures
        final(pool).wf(),
        consistent(final(pool)@, final(hash)@),
        insert ==> {
            let bytes = buffer@.subrange(ptr as int, ptr + len);
            &&& final(pool)@ == intern(old(pool)@, old(hash)@, bytes, ilk).0
            &&& final(hash)@ == intern(old(pool)@, old(hash)@, bytes, ilk).1
            &&& r == intern(old(pool)@, old(hash)@, bytes, ilk).2
        },
        !insert ==> {
            &&& *final(pool) == *old(pool)
            &&& *final(hash) == *old(hash)
            &&& r == Ok::<LookupRes, BibtexError>(
                find(old(pool)@, old(hash)@, buffer@.subrange(ptr as int, ptr + len), ilk),
            )
        },
{
    assert(buffer.len() == buffer@.len());
    let str = vstd::slice::slice_subrange(buffer, ptr, ptr + len);
    if insert {
        pool.lookup_str_insert(hash, str, ilk)
    } else {
        Ok(pool.lookup_str(hash, str, ilk))
    }
}

} // verus!
