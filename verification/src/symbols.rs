//! What the string pool and the symbol table hold together: a map from
//! `(bytes, tag)` to the slot of the entry, and what a lookup and an
//! insertion do to it.
//!
//! Everything here speaks of the views of the two structures: the strings
//! by number (`Seq<Seq<u8>>`) and the table's columns (`HashView`).
use vstd::prelude::*;
use crate::hash::{
    highest_free, lemma_chain_end, lemma_chain_extends, lemma_chain_keeps_paths, lemma_chain_wf,
    lemma_count_free_above, lemma_count_free_empty, lemma_count_free_taken, lemma_highest_free,
    HashView, HASH_BASE, HASH_MAX, HASH_SIZE,
};
use crate::pool::{home_slot, lemma_home_slot, MAX_STRINGS};
use crate::{BibtexError, HashPointer, LookupRes, StrIlk, StrNumber};

verus! {

/// Whether slot `p` holds a string with these bytes, under whatever tag.
pub open spec fn has_bytes(strings: Seq<Seq<u8>>, t: HashView, p: int, bytes: Seq<u8>) -> bool {
    &&& HashView::is_slot(p)
    &&& t.text[p] != 0
    &&& strings[t.text[p] as int] == bytes
}

/// Whether slot `p` holds the entry `(bytes, ilk)`.
pub open spec fn holds(
    strings: Seq<Seq<u8>>,
    t: HashView,
    p: int,
    bytes: Seq<u8>,
    ilk: StrIlk,
) -> bool {
    has_bytes(strings, t, p, bytes) && t.ilk[p] == ilk
}

/// The invariant that ties the table to the pool.
///
/// Every taken slot names a string of the pool and lies on the chain that
/// starts at the home slot of its bytes; no two slots hold the same entry;
/// slots with the same bytes share one string number.
pub open spec fn consistent(strings: Seq<Seq<u8>>, t: HashView) -> bool {
    &&& t.wf()
    &&& 1 <= strings.len() <= MAX_STRINGS
    &&& forall|p: int| HashView::is_slot(p) ==> #[trigger] t.text[p] < strings.len()
    &&& forall|p: int|
        #![trigger t.text[p]]
        HashView::is_slot(p) && t.text[p] != 0 ==> t.reaches(
            home_slot(strings[t.text[p] as int]),
            p,
        )
    &&& forall|p: int, q: int|
        #![trigger t.text[p], t.text[q]]
        HashView::is_slot(p) && HashView::is_slot(q) && p != q && t.text[p] != 0 && t.text[q] != 0
            && strings[t.text[p] as int] == strings[t.text[q] as int] ==> t.text[p] == t.text[q]
            && t.ilk[p] != t.ilk[q]
}

/// The entries of the table: for each `(bytes, tag)` that was interned, the slot that holds it.
pub open spec fn entries(strings: Seq<Seq<u8>>, t: HashView) -> Map<(Seq<u8>, StrIlk), HashPointer> {
    Map::new(
        |k: (Seq<u8>, StrIlk)| exists|p: int| holds(strings, t, p, k.0, k.1),
        |k: (Seq<u8>, StrIlk)| (choose|p: int| holds(strings, t, p, k.0, k.1)) as usize,
    )
}

/// Whether these bytes have a string number, that is, are held by some slot.
pub open spec fn numbered(strings: Seq<Seq<u8>>, t: HashView, bytes: Seq<u8>) -> bool {
    exists|p: int| has_bytes(strings, t, p, bytes)
}

/// The string number of these bytes, where they have one.
pub open spec fn number_of(strings: Seq<Seq<u8>>, t: HashView, bytes: Seq<u8>) -> StrNumber {
    t.text[choose|p: int| has_bytes(strings, t, p, bytes)]
}

/// The result of looking `(bytes, ilk)` up: its slot if it is an entry,
/// else the last slot of the chain that it would be on.
pub open spec fn find(strings: Seq<Seq<u8>>, t: HashView, bytes: Seq<u8>, ilk: StrIlk) -> LookupRes {
    if entries(strings, t).contains_key((bytes, ilk)) {
        LookupRes { loc: entries(strings, t)[(bytes, ilk)], exists: true }
    } else {
        LookupRes { loc: t.chain_end(home_slot(bytes)) as usize, exists: false }
    }
}

/// Whether a new entry for `bytes` needs a slot of its own: the chain it belongs to ends in a taken slot.
pub open spec fn needs_slot(t: HashView, bytes: Seq<u8>) -> bool {
    t.text[t.chain_end(home_slot(bytes))] != 0
}

/// The slot that a new entry for `bytes` goes to: the end of its chain if
/// that slot is empty, else the highest free slot below the claiming mark
/// (`0` if there is none).
pub open spec fn slot_for(t: HashView, bytes: Seq<u8>) -> int {
    if needs_slot(t, bytes) {
        highest_free(t.text, t.used as int)
    } else {
        t.chain_end(home_slot(bytes))
    }
}

/// The table once there is a slot for a new entry for `bytes`.
pub open spec fn with_slot(t: HashView, bytes: Seq<u8>) -> HashView {
    if needs_slot(t, bytes) {
        HashView {
            used: slot_for(t, bytes) as usize,
            ..t.chain(t.chain_end(home_slot(bytes)), slot_for(t, bytes))
        }
    } else {
        t
    }
}

/// What interning `(bytes, ilk)` does: the strings and the table afterwards, and the result.
///
/// An entry that is there is found, and nothing changes. Otherwise the
/// entry goes to `slot_for`; it shares the string number of an entry with
/// the same bytes, or else gets the next number, its bytes being appended.
/// Interning fails when a slot is needed and none is free, and when a
/// string number is needed and all are taken.
#[verifier::opaque]
pub open spec fn intern(strings: Seq<Seq<u8>>, t: HashView, bytes: Seq<u8>, ilk: StrIlk) -> (
    Seq<Seq<u8>>,
    HashView,
    Result<LookupRes, BibtexError>,
) {
    let slot = slot_for(t, bytes);
    if entries(strings, t).contains_key((bytes, ilk)) {
        (strings, t, Ok(find(strings, t, bytes, ilk)))
    } else if slot == 0 {
        (strings, HashView { used: HASH_BASE, ..t }, Err(BibtexError::HashOverflow))
    } else if numbered(strings, t, bytes) {
        (
            strings,
            with_slot(t, bytes).fill(slot, number_of(strings, t, bytes), ilk),
            Ok(LookupRes { loc: slot as usize, exists: false }),
        )
    } else if strings.len() == MAX_STRINGS {
        (strings, with_slot(t, bytes), Err(BibtexError::StringOverflow))
    } else {
        (
            strings.push(bytes),
            with_slot(t, bytes).fill(slot, strings.len() as usize, ilk),
            Ok(LookupRes { loc: slot as usize, exists: false }),
        )
    }
}

/// Whether interning `(bytes, ilk)` writes the bytes to the arena: it does
/// when the entry is new, has a slot to go to, and shares no string number.
pub open spec fn appends(strings: Seq<Seq<u8>>, t: HashView, bytes: Seq<u8>, ilk: StrIlk) -> bool {
    &&& !entries(strings, t).contains_key((bytes, ilk))
    &&& slot_for(t, bytes) != 0
    &&& !numbered(strings, t, bytes)
}

/// An empty pool and an empty table agree: there is no entry, and every slot is free.
pub proof fn lemma_empty()
    ensures
        consistent(seq![Seq::<u8>::empty()], HashView::empty()),
        entries(seq![Seq::<u8>::empty()], HashView::empty()) == Map::<
            (Seq<u8>, StrIlk),
            HashPointer,
        >::empty(),
        HashView::empty().free_slots() == HASH_SIZE,
{
    let strings = seq![Seq::<u8>::empty()];
    let t = HashView::empty();
    lemma_count_free_empty(t.text, t.used as int);
    assert(entries(strings, t).dom() =~= Set::empty());
    assert(entries(strings, t) =~= Map::empty());
}

/// No two slots hold the same entry.
pub proof fn lemma_holds_once(
    strings: Seq<Seq<u8>>,
    t: HashView,
    p: int,
    q: int,
    bytes: Seq<u8>,
    ilk: StrIlk,
)
    requires
        consistent(strings, t),
        holds(strings, t, p, bytes, ilk),
        holds(strings, t, q, bytes, ilk),
    ensures
        p == q,
{
    if p != q {
        assert(t.text[p] != 0 && t.text[q] != 0);
    }
}

/// A slot that holds an entry is the slot that `entries` gives for it.
pub proof fn lemma_entry(strings: Seq<Seq<u8>>, t: HashView, p: int, bytes: Seq<u8>, ilk: StrIlk)
    requires
        consistent(strings, t),
        holds(strings, t, p, bytes, ilk),
    ensures
        entries(strings, t).contains_key((bytes, ilk)),
        entries(strings, t)[(bytes, ilk)] == p,
{
    let k = (bytes, ilk);
    assert(holds(strings, t, p, k.0, k.1));
    let q = choose|q: int| holds(strings, t, q, k.0, k.1);
    lemma_holds_once(strings, t, p, q, bytes, ilk);
}

/// The slot that `entries` gives for an entry holds it.
pub proof fn lemma_entry_slot(strings: Seq<Seq<u8>>, t: HashView, bytes: Seq<u8>, ilk: StrIlk)
    requires
        entries(strings, t).contains_key((bytes, ilk)),
    ensures
        holds(strings, t, entries(strings, t)[(bytes, ilk)] as int, bytes, ilk),
{
}

/// Slots with the same bytes share their string number, which is the number of those bytes.
pub proof fn lemma_number(strings: Seq<Seq<u8>>, t: HashView, p: int, bytes: Seq<u8>)
    requires
        consistent(strings, t),
        has_bytes(strings, t, p, bytes),
    ensures
        numbered(strings, t, bytes),
        number_of(strings, t, bytes) == t.text[p],
        0 < number_of(strings, t, bytes) < strings.len(),
{
    let q = choose|q: int| has_bytes(strings, t, q, bytes);
    if p != q {
        assert(t.text[p] != 0 && t.text[q] != 0);
    }
    assert(t.text[p] < strings.len());
}

/// Where a new entry goes: a slot of the table that is empty and ends the
/// chain of its bytes once the table has made room, unless no slot is free.
pub proof fn lemma_slot_for(t: HashView, bytes: Seq<u8>)
    requires
        t.wf(),
    ensures
        HashView::is_slot(t.chain_end(home_slot(bytes))),
        t.next[t.chain_end(home_slot(bytes))] == 0,
        slot_for(t, bytes) == 0 <==> needs_slot(t, bytes) && t.free_slots() == 0,
        slot_for(t, bytes) != 0 ==> {
            &&& HashView::is_slot(slot_for(t, bytes))
            &&& t.text[slot_for(t, bytes)] == 0
            &&& with_slot(t, bytes).wf()
            &&& with_slot(t, bytes).reaches(home_slot(bytes), slot_for(t, bytes))
            &&& with_slot(t, bytes).chain_end(home_slot(bytes)) == slot_for(t, bytes)
            &&& with_slot(t, bytes).text == t.text
            &&& with_slot(t, bytes).free_slots() == if needs_slot(t, bytes) {
                t.free_slots() - 1
            } else {
                t.free_slots() as int
            }
            &&& needs_slot(t, bytes) ==> slot_for(t, bytes) < t.used
            &&& forall|a: int, b: int| t.reaches(a, b) ==> with_slot(t, bytes).reaches(a, b)
        },
{
    let home = home_slot(bytes);
    let tail = t.chain_end(home);
    let slot = slot_for(t, bytes);
    lemma_home_slot(bytes);
    lemma_chain_end(t, home);
    assert(t.next[tail] == 0) by {
        if t.next[tail] != 0 {
            assert(t.linked(tail));
        }
    }
    lemma_highest_free(t.text, t.used as int);
    if needs_slot(t, bytes) {
        if slot != 0 {
            let u = t.chain(tail, slot);
            let w = with_slot(t, bytes);
            lemma_chain_wf(t, tail, slot);
            lemma_chain_extends(t, tail, slot, home);
            assert(w.wf());
            assert forall|a: int, b: int| t.reaches(a, b) implies w.reaches(a, b) by {
                lemma_chain_keeps_paths(t, tail, slot, a, b);
            }
        }
    }
}

/// Two states in which every slot holds the same entry have the same entries.
pub proof fn lemma_entries_same(
    strings: Seq<Seq<u8>>,
    t: HashView,
    strings1: Seq<Seq<u8>>,
    t1: HashView,
)
    requires
        consistent(strings1, t1),
        forall|p: int, bytes: Seq<u8>, ilk: StrIlk|
            holds(strings, t, p, bytes, ilk) == #[trigger] holds(strings1, t1, p, bytes, ilk),
    ensures
        entries(strings1, t1) == entries(strings, t),
{
    let m = entries(strings, t);
    let m1 = entries(strings1, t1);
    assert forall|k: (Seq<u8>, StrIlk)| #[trigger] m.dom().contains(k) implies m1.dom().contains(k)
        && m1[k] == m[k] by {
        let p = choose|p: int| holds(strings, t, p, k.0, k.1);
        assert(holds(strings1, t1, p, k.0, k.1));
        lemma_entry(strings1, t1, p, k.0, k.1);
    }
    assert forall|k: (Seq<u8>, StrIlk)| #[trigger] m1.dom().contains(k) implies m.dom().contains(
        k,
    ) by {
        let p = choose|p: int| holds(strings1, t1, p, k.0, k.1);
        assert(holds(strings1, t1, p, k.0, k.1));
    }
    assert(m1.dom() =~= m.dom());
    assert(m1 =~= m);
}

/// A state that differs from another in one slot, which was empty and now
/// holds `(bytes, ilk)`, has that one entry more.
pub proof fn lemma_entries_more(
    strings: Seq<Seq<u8>>,
    t: HashView,
    strings1: Seq<Seq<u8>>,
    t1: HashView,
    slot: int,
    bytes: Seq<u8>,
    ilk: StrIlk,
)
    requires
        consistent(strings1, t1),
        t.text[slot] == 0,
        holds(strings1, t1, slot, bytes, ilk),
        forall|p: int, b: Seq<u8>, k: StrIlk|
            p != slot ==> holds(strings, t, p, b, k) == #[trigger] holds(strings1, t1, p, b, k),
    ensures
        entries(strings1, t1) == entries(strings, t).insert((bytes, ilk), slot as usize),
{
    let m = entries(strings, t).insert((bytes, ilk), slot as usize);
    let m1 = entries(strings1, t1);
    lemma_entry(strings1, t1, slot, bytes, ilk);
    assert forall|k: (Seq<u8>, StrIlk)| #[trigger] m.dom().contains(k) implies m1.dom().contains(k)
        && m1[k] == m[k] by {
        if k != (bytes, ilk) {
            let p = choose|p: int| holds(strings, t, p, k.0, k.1);
            assert(holds(strings1, t1, p, k.0, k.1));
            lemma_entry(strings1, t1, p, k.0, k.1);
        }
    }
    assert forall|k: (Seq<u8>, StrIlk)| #[trigger] m1.dom().contains(k) implies m.dom().contains(
        k,
    ) by {
        let p = choose|p: int| holds(strings1, t1, p, k.0, k.1);
        assert(holds(strings1, t1, p, k.0, k.1));
        if p == slot {
            lemma_holds_once(strings1, t1, p, slot, k.0, k.1);
            assert(k.0 == bytes && k.1 == ilk);
            assert(k == (bytes, ilk));
        } else {
            assert(holds(strings, t, p, k.0, k.1));
        }
    }
    assert(m1.dom() =~= m.dom());
    assert(m1 =~= m);
}

/// Whether two tables differ in nothing but the roles and the auxiliary numbers of their entries.
pub open spec fn same_but_marks(t: HashView, t1: HashView) -> bool {
    &&& t1 == (HashView { ilk_info: t1.ilk_info, fn_type: t1.fn_type, ..t })
    &&& t1.ilk_info.len() == t.ilk_info.len()
    &&& t1.fn_type.len() == t.fn_type.len()
}

/// The invariant, the entries and the free slots do not depend on the
/// roles and the auxiliary numbers of the entries.
pub proof fn lemma_marks(strings: Seq<Seq<u8>>, t: HashView, t1: HashView)
    requires
        consistent(strings, t),
        same_but_marks(t, t1),
    ensures
        consistent(strings, t1),
        entries(strings, t1) == entries(strings, t),
        t1.free_slots() == t.free_slots(),
{
    assert forall|p: int| #![trigger t1.text[p]] HashView::is_slot(p) && t1.text[p] != 0 implies t1.reaches(
        home_slot(strings[t1.text[p] as int]),
        p,
    ) by {
        assert(t.text[p] != 0);
    }
    lemma_entries_same(strings, t, strings, t1);
}

/// Making room for a new entry keeps the invariant and the entries.
pub proof fn lemma_with_slot(strings: Seq<Seq<u8>>, t: HashView, bytes: Seq<u8>)
    requires
        consistent(strings, t),
        slot_for(t, bytes) != 0,
    ensures
        consistent(strings, with_slot(t, bytes)),
        entries(strings, with_slot(t, bytes)) == entries(strings, t),
{
    let w = with_slot(t, bytes);
    lemma_slot_for(t, bytes);
    assert forall|p: int| #![trigger w.text[p]] HashView::is_slot(p) && w.text[p] != 0 implies w.reaches(
        home_slot(strings[w.text[p] as int]),
        p,
    ) by {
        assert(t.reaches(home_slot(strings[t.text[p] as int]), p));
    }
    lemma_entries_same(strings, t, strings, w);
}

/// Putting a new entry into the empty slot at the end of its chain keeps
/// the invariant and adds that entry.
pub proof fn lemma_fill(
    strings: Seq<Seq<u8>>,
    w: HashView,
    strings1: Seq<Seq<u8>>,
    slot: int,
    number: StrNumber,
    bytes: Seq<u8>,
    ilk: StrIlk,
)
    requires
        consistent(strings, w),
        HashView::is_slot(slot),
        w.text[slot] == 0,
        w.reaches(home_slot(bytes), slot),
        !entries(strings, w).contains_key((bytes, ilk)),
        numbered(strings, w, bytes) ==> strings1 == strings && number == number_of(
            strings,
            w,
            bytes,
        ),
        !numbered(strings, w, bytes) ==> strings.len() < MAX_STRINGS && strings1 == strings.push(
            bytes,
        ) && number == strings.len(),
    ensures
        consistent(strings1, w.fill(slot, number, ilk)),
        holds(strings1, w.fill(slot, number, ilk), slot, bytes, ilk),
        entries(strings1, w.fill(slot, number, ilk)) == entries(strings, w).insert(
            (bytes, ilk),
            slot as usize,
        ),
{
    let f = w.fill(slot, number, ilk);
    if numbered(strings, w, bytes) {
        let v = choose|v: int| has_bytes(strings, w, v, bytes);
        lemma_number(strings, w, v, bytes);
    }
    assert(0 < number < strings1.len());
    assert(strings1[number as int] == bytes);
    assert forall|s: int| 0 <= s < strings.len() implies strings1[s] == strings[s] by {}
    assert forall|p: int, b: Seq<u8>, k: StrIlk| p != slot implies holds(strings, w, p, b, k)
        == #[trigger] holds(strings1, f, p, b, k) by {
        if HashView::is_slot(p) {
            assert(w.text[p] < strings.len());
        }
    }
    assert forall|p: int| HashView::is_slot(p) implies #[trigger] f.text[p] < strings1.len() by {
        assert(w.text[p] < strings.len());
    }
    assert forall|p: int| #![trigger f.text[p]] HashView::is_slot(p) && f.text[p] != 0 implies f.reaches(
        home_slot(strings1[f.text[p] as int]),
        p,
    ) by {
        if p != slot {
            assert(w.text[p] < strings.len());
            assert(w.reaches(home_slot(strings[w.text[p] as int]), p));
        }
    }
    assert forall|p: int, q: int|
        #![trigger f.text[p], f.text[q]]
        HashView::is_slot(p) && HashView::is_slot(q) && p != q && f.text[p] != 0 && f.text[q] != 0
            && strings1[f.text[p] as int] == strings1[f.text[q] as int] implies f.text[p]
            == f.text[q] && f.ilk[p] != f.ilk[q] by {
        if p != slot && q != slot {
            assert(w.text[p] < strings.len() && w.text[q] < strings.len());
            assert(w.text[p] != 0 && w.text[q] != 0);
        } else {
            let other = if p == slot {
                q
            } else {
                p
            };
            assert(w.text[other] < strings.len());
            assert(has_bytes(strings, w, other, bytes));
            lemma_number(strings, w, other, bytes);
            if w.ilk[other] == ilk {
                lemma_entry(strings, w, other, bytes, ilk);
            }
        }
    }
    assert(f.wf()) by {
        assert forall|p: int| 0 <= p <= HASH_MAX && #[trigger] f.next[p] != 0 implies f.text[p]
            != 0 && f.linked(p) by {
            assert(w.next[p] != 0);
        }
    }
    lemma_entries_more(strings, w, strings1, f, slot, bytes, ilk);
}

/// Interning keeps the invariant, every string and every entry, and adds
/// no entry but the one asked for. It takes at most one free slot, and the
/// claiming mark never rises.
pub proof fn lemma_intern(strings: Seq<Seq<u8>>, t: HashView, bytes: Seq<u8>, ilk: StrIlk)
    requires
        consistent(strings, t),
    ensures
        consistent(intern(strings, t, bytes, ilk).0, intern(strings, t, bytes, ilk).1),
        intern(strings, t, bytes, ilk).0 == strings || intern(strings, t, bytes, ilk).0
            == strings.push(bytes),
        intern(strings, t, bytes, ilk).1.ilk_info == t.ilk_info,
        intern(strings, t, bytes, ilk).1.fn_type == t.fn_type,
        intern(strings, t, bytes, ilk).1.free_slots() + 1 >= t.free_slots(),
        intern(strings, t, bytes, ilk).1.used <= t.used,
        forall|p: int|
            HashView::is_slot(p) && #[trigger] t.text[p] != 0 ==> intern(
                strings,
                t,
                bytes,
                ilk,
            ).1.text[p] == t.text[p] && intern(strings, t, bytes, ilk).1.ilk[p] == t.ilk[p],
        match intern(strings, t, bytes, ilk).2 {
            Ok(res) => {
                &&& res.exists == entries(strings, t).contains_key((bytes, ilk))
                &&& holds(
                    intern(strings, t, bytes, ilk).0,
                    intern(strings, t, bytes, ilk).1,
                    res.loc as int,
                    bytes,
                    ilk,
                )
                &&& entries(intern(strings, t, bytes, ilk).0, intern(strings, t, bytes, ilk).1)
                    == if res.exists {
                    entries(strings, t)
                } else {
                    entries(strings, t).insert((bytes, ilk), res.loc)
                }
                &&& !res.exists ==> t.text[res.loc as int] == 0
            },
            Err(_) => entries(intern(strings, t, bytes, ilk).0, intern(strings, t, bytes, ilk).1)
                == entries(strings, t),
        },
{
    reveal(intern);
    let slot = slot_for(t, bytes);
    let w = with_slot(t, bytes);
    lemma_slot_for(t, bytes);
    if entries(strings, t).contains_key((bytes, ilk)) {
        lemma_entry_slot(strings, t, bytes, ilk);
    } else if slot == 0 {
        let full = HashView { used: HASH_BASE, ..t };
        lemma_entries_same(strings, t, strings, full);
    } else {
        lemma_with_slot(strings, t, bytes);
        if numbered(strings, t, bytes) {
            let v = choose|v: int| has_bytes(strings, t, v, bytes);
            assert(has_bytes(strings, w, v, bytes));
            lemma_number(strings, t, v, bytes);
            lemma_number(strings, w, v, bytes);
            let n = number_of(strings, t, bytes);
            lemma_fill(strings, w, strings, slot, n, bytes, ilk);
            lemma_free_after_fill(t, bytes, n, ilk);
        } else if strings.len() == MAX_STRINGS {
        } else {
            assert(!numbered(strings, w, bytes)) by {
                if numbered(strings, w, bytes) {
                    let v = choose|v: int| has_bytes(strings, w, v, bytes);
                    assert(has_bytes(strings, t, v, bytes));
                }
            }
            let n = strings.len() as usize;
            lemma_fill(strings, w, strings.push(bytes), slot, n, bytes, ilk);
            lemma_free_after_fill(t, bytes, n, ilk);
        }
    }
}

/// A new entry takes one free slot if its slot lies below the claiming mark, and none otherwise.
pub proof fn lemma_free_after_fill(t: HashView, bytes: Seq<u8>, number: StrNumber, ilk: StrIlk)
    requires
        t.wf(),
        slot_for(t, bytes) != 0,
        number != 0,
    ensures
        with_slot(t, bytes).fill(slot_for(t, bytes), number, ilk).free_slots() == if needs_slot(
            t,
            bytes,
        ) || slot_for(t, bytes) < t.used {
            t.free_slots() - 1
        } else {
            t.free_slots() as int
        },
{
    let slot = slot_for(t, bytes);
    let w = with_slot(t, bytes);
    lemma_slot_for(t, bytes);
    if needs_slot(t, bytes) || slot >= t.used {
        lemma_count_free_above(w.text, w.used as int, slot, number);
    } else {
        lemma_count_free_taken(w.text, w.used as int, slot, number);
    }
}

/// Interning a pair that was just interned finds it in the same slot and
/// changes nothing: neither a string, nor its number, nor the table.
pub proof fn lemma_intern_twice(strings: Seq<Seq<u8>>, t: HashView, bytes: Seq<u8>, ilk: StrIlk)
    requires
        consistent(strings, t),
        intern(strings, t, bytes, ilk).2 is Ok,
    ensures
        ({
            let first = intern(strings, t, bytes, ilk);
            let second = intern(first.0, first.1, bytes, ilk);
            &&& second.0 == first.0
            &&& second.1 == first.1
            &&& second.2 == Ok::<LookupRes, BibtexError>(
                LookupRes { loc: first.2->Ok_0.loc, exists: true },
            )
        }),
{
    reveal(intern);
    let first = intern(strings, t, bytes, ilk);
    lemma_intern(strings, t, bytes, ilk);
    lemma_entry(first.0, first.1, first.2->Ok_0.loc as int, bytes, ilk);
}

/// A lookup right after interning a pair finds it, in the slot that
/// interning gave, and that slot's string has the bytes that were interned.
pub proof fn lemma_found_after_intern(
    strings: Seq<Seq<u8>>,
    t: HashView,
    bytes: Seq<u8>,
    ilk: StrIlk,
)
    requires
        consistent(strings, t),
        intern(strings, t, bytes, ilk).2 is Ok,
    ensures
        ({
            let after = intern(strings, t, bytes, ilk);
            let loc = after.2->Ok_0.loc;
            &&& find(after.0, after.1, bytes, ilk) == LookupRes { loc, exists: true }
            &&& after.1.text[loc as int] != 0
            &&& after.0[after.1.text[loc as int] as int] == bytes
            &&& after.1.ilk[loc as int] == ilk
        }),
{
    let after = intern(strings, t, bytes, ilk);
    lemma_intern(strings, t, bytes, ilk);
    lemma_entry(after.0, after.1, after.2->Ok_0.loc as int, bytes, ilk);
}

/// The same bytes interned under two tags are two entries in two slots
/// that share one string number, and each is found under its own tag.
pub proof fn lemma_tags_apart(
    strings: Seq<Seq<u8>>,
    t: HashView,
    bytes: Seq<u8>,
    ilk1: StrIlk,
    ilk2: StrIlk,
)
    requires
        consistent(strings, t),
        ilk1 != ilk2,
        intern(strings, t, bytes, ilk1).2 is Ok,
        intern(
            intern(strings, t, bytes, ilk1).0,
            intern(strings, t, bytes, ilk1).1,
            bytes,
            ilk2,
        ).2 is Ok,
    ensures
        ({
            let first = intern(strings, t, bytes, ilk1);
            let second = intern(first.0, first.1, bytes, ilk2);
            let loc1 = first.2->Ok_0.loc;
            let loc2 = second.2->Ok_0.loc;
            &&& loc1 != loc2
            &&& second.1.text[loc1 as int] == second.1.text[loc2 as int]
            &&& find(second.0, second.1, bytes, ilk1) == LookupRes { loc: loc1, exists: true }
            &&& find(second.0, second.1, bytes, ilk2) == LookupRes { loc: loc2, exists: true }
        }),
{
    reveal(intern);
    let first = intern(strings, t, bytes, ilk1);
    let second = intern(first.0, first.1, bytes, ilk2);
    let loc1 = first.2->Ok_0.loc as int;
    let loc2 = second.2->Ok_0.loc as int;
    lemma_intern(strings, t, bytes, ilk1);
    lemma_intern(first.0, first.1, bytes, ilk2);
    lemma_entry(first.0, first.1, loc1, bytes, ilk1);
    lemma_entry(second.0, second.1, loc2, bytes, ilk2);
    assert(entries(second.0, second.1).contains_key((bytes, ilk1)));
    assert(entries(second.0, second.1)[(bytes, ilk1)] == loc1);
    lemma_entry_slot(second.0, second.1, bytes, ilk1);
    lemma_number(second.0, second.1, loc1, bytes);
    lemma_number(second.0, second.1, loc2, bytes);
}

/// Interning never changes a string that is there, however the arena had to grow.
pub proof fn lemma_intern_keeps_strings(
    strings: Seq<Seq<u8>>,
    t: HashView,
    bytes: Seq<u8>,
    ilk: StrIlk,
    s: int,
)
    requires
        consistent(strings, t),
        0 <= s < strings.len(),
    ensures
        s < intern(strings, t, bytes, ilk).0.len(),
        intern(strings, t, bytes, ilk).0[s] == strings[s],
{
    lemma_intern(strings, t, bytes, ilk);
}

/// Interning fails for want of a string number exactly when every number
/// is taken and the pair needs one of its own; for want of a slot exactly
/// when the pair is new, its chain ends in a taken slot, and no slot is free.
/// Either way the strings, the entries and the invariant are kept.
pub proof fn lemma_intern_fails(strings: Seq<Seq<u8>>, t: HashView, bytes: Seq<u8>, ilk: StrIlk)
    requires
        consistent(strings, t),
    ensures
        intern(strings, t, bytes, ilk).2 == Err::<LookupRes, BibtexError>(
            BibtexError::StringOverflow,
        ) <==> strings.len() == MAX_STRINGS && appends(strings, t, bytes, ilk),
        intern(strings, t, bytes, ilk).2 == Err::<LookupRes, BibtexError>(
            BibtexError::HashOverflow,
        ) <==> !entries(strings, t).contains_key((bytes, ilk)) && needs_slot(t, bytes)
            && t.free_slots() == 0,
        intern(strings, t, bytes, ilk).2 is Err ==> {
            &&& intern(strings, t, bytes, ilk).0 == strings
            &&& entries(intern(strings, t, bytes, ilk).0, intern(strings, t, bytes, ilk).1)
                == entries(strings, t)
            &&& consistent(intern(strings, t, bytes, ilk).0, intern(strings, t, bytes, ilk).1)
        },
{
    reveal(intern);
    lemma_intern(strings, t, bytes, ilk);
    lemma_slot_for(t, bytes);
}

} // verus!
