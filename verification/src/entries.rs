//! Per-entry variables: integers and fixed-width strings, laid out entry by entry.
use vstd::pervasive::unreached;
use vstd::prelude::*;
use crate::xbuf::{zeros, XBuf};
use crate::ASCIICode;

verus! {

/// Longest value of a string variable of an entry.
pub const ENT_STR_SIZE: usize = 250;

/// The byte that ends a string variable of an entry.
pub const END_OF_STRING: ASCIICode = 127;

/// The state of [`EntryData`] as plain values.
pub struct EntryView {
    /// Number of integer variables per entry.
    pub num_entry_ints: usize,
    /// Number of string variables per entry.
    pub num_entry_strs: usize,
    /// Which string variable holds the sort key.
    pub sort_key_num: usize,
    /// The integer variables of all entries, once they are set up.
    pub entry_ints: Option<Seq<i32>>,
    /// The string variables of all entries, once they are set up.
    pub entry_strs: Option<Seq<ASCIICode>>,
}

/// Per-entry variables.
pub struct EntryData {
    num_entry_ints: usize,
    num_entry_strs: usize,
    sort_key_num: usize,
    entry_ints: Option<XBuf<i32>>,
    entry_strs: Option<XBuf<ASCIICode>>,
}

impl View for EntryData {
    type V = EntryView;

    closed spec fn view(&self) -> EntryView {
        EntryView {
            num_entry_ints: self.num_entry_ints,
            num_entry_strs: self.num_entry_strs,
            sort_key_num: self.sort_key_num,
            entry_ints: match self.entry_ints {
                Some(ints) => Some(ints@),
                None => None,
            },
            entry_strs: match self.entry_strs {
                Some(strs) => Some(strs@),
                None => None,
            },
        }
    }
}

impl EntryView {
    /// No variable is declared and no storage is set up.
    pub open spec fn empty() -> EntryView {
        EntryView {
            num_entry_ints: 0,
            num_entry_strs: 0,
            sort_key_num: 0,
            entry_ints: None,
            entry_strs: None,
        }
    }
}

impl EntryData {
    /// No variable is declared and no storage is set up.
    pub fn new() -> (entries: EntryData)
        ensures
            entries@ == EntryView::empty(),
    {
        EntryData {
            num_entry_ints: 0,
            num_entry_strs: 0,
            sort_key_num: 0,
            entry_ints: None,
            entry_strs: None,
        }
    }

    /// Number of cells of the integer variables; `0` before they are set up.
    pub fn ints_len(&self) -> (n: usize)
        ensures
            n == match self@.entry_ints {
                Some(ints) => ints.len(),
                None => 0,
            },
    {
        match &self.entry_ints {
            Some(ints) => ints.len(),
            None => 0,
        }
    }

    /// Number of cells of the string variables; `0` before they are set up.
    pub fn strs_len(&self) -> (n: usize)
        ensures
            n == match self@.entry_strs {
                Some(strs) => strs.len(),
                None => 0,
            },
    {
        match &self.entry_strs {
            Some(strs) => strs.len(),
            None => 0,
        }
    }

    /// The byte at `pos` of the string variables.
    pub fn strs(&self, pos: usize) -> (code: ASCIICode)
        requires
            self@.entry_strs is Some,
            pos < self@.entry_strs->0.len(),
        ensures
            code == self@.entry_strs->0[pos as int],
    {
        match &self.entry_strs {
            Some(strs) => strs.get(pos),
            None => unreached(),
        }
    }

    /// Overwrites the byte at `pos` of the string variables.
    pub fn set_strs(&mut self, pos: usize, val: ASCIICode)
        requires
            old(self)@.entry_strs is Some,
            pos < old(self)@.entry_strs->0.len(),
        ensures
            final(self)@ == (EntryView {
                entry_strs: Some(old(self)@.entry_strs->0.update(pos as int, val)),
                ..old(self)@
            }),
    {
        match self.entry_strs.take() {
            Some(mut strs) => {
                strs.set(pos, val);
                self.entry_strs = Some(strs);
            },
            None => unreached(),
        }
    }

    /// The integer variable at `pos`.
    pub fn ints(&self, pos: usize) -> (val: i32)
        requires
            self@.entry_ints is Some,
            pos < self@.entry_ints->0.len(),
        ensures
            val == self@.entry_ints->0[pos as int],
    {
        match &self.entry_ints {
            Some(ints) => ints.get(pos),
            None => unreached(),
        }
    }

    /// Overwrites the integer variable at `pos`.
    pub fn set_ints(&mut self, pos: usize, val: i32)
        requires
            old(self)@.entry_ints is Some,
            pos < old(self)@.entry_ints->0.len(),
        ensures
            final(self)@ == (EntryView {
                entry_ints: Some(old(self)@.entry_ints->0.update(pos as int, val)),
                ..old(self)@
            }),
    {
        match self.entry_ints.take() {
            Some(mut ints) => {
                ints.set(pos, val);
                self.entry_ints = Some(ints);
            },
            None => unreached(),
        }
    }

    /// Number of integer variables per entry.
    pub fn num_ent_ints(&self) -> (n: usize)
        ensures
            n == self@.num_entry_ints,
    {
        self.num_entry_ints
    }

    /// Sets the number of integer variables per entry.
    pub fn set_num_ent_ints(&mut self, val: usize)
        ensures
            final(self)@ == (EntryView { num_entry_ints: val, ..old(self)@ }),
    {
        self.num_entry_ints = val;
    }

    /// Number of string variables per entry.
    pub fn num_ent_strs(&self) -> (n: usize)
        ensures
            n == self@.num_entry_strs,
    {
        self.num_entry_strs
    }

    /// Sets the number of string variables per entry.
    pub fn set_num_ent_strs(&mut self, val: usize)
        ensures
            final(self)@ == (EntryView { num_entry_strs: val, ..old(self)@ }),
    {
        self.num_entry_strs = val;
    }

    /// Which string variable holds the sort key.
    pub fn sort_key_num(&self) -> (n: usize)
        ensures
            n == self@.sort_key_num,
    {
        self.sort_key_num
    }

    /// Sets which string variable holds the sort key.
    pub fn set_sort_key_num(&mut self, val: usize)
        ensures
            final(self)@ == (EntryView { sort_key_num: val, ..old(self)@ }),
    {
        self.sort_key_num = val;
    }

    /// Sets up the integer variables for `num_cites` entries, all zero:
    /// one cell more than `(num_entry_ints + 1) * (num_cites + 1)`.
    pub fn init_entry_ints(&mut self, num_cites: usize)
        requires
            (old(self)@.num_entry_ints + 1) * (num_cites + 1) < usize::MAX,
        ensures
            final(self)@ == (EntryView {
                entry_ints: Some(
                    zeros::<i32>(((old(self)@.num_entry_ints + 1) * (num_cites + 1) + 1) as nat),
                ),
                ..old(self)@
            }),
    {
        assert(self.num_entry_ints + 1 <= (self.num_entry_ints + 1) * (num_cites + 1))
            by (nonlinear_arith);
        assert(num_cites + 1 <= (self.num_entry_ints + 1) * (num_cites + 1)) by (nonlinear_arith);
        self.entry_ints = Some(XBuf::new((self.num_entry_ints + 1) * (num_cites + 1)));
    }

    /// Sets up the string variables for `num_cites` entries, every byte the
    /// end-of-string mark: one cell more than
    /// `(num_entry_strs + 1) * (num_cites + 1) * (ENT_STR_SIZE + 1)`.
    pub fn init_entry_strs(&mut self, num_cites: usize)
        requires
            (old(self)@.num_entry_strs + 1) * (num_cites + 1) * (ENT_STR_SIZE + 1) < usize::MAX,
        ensures
            final(self)@ == (EntryView {
                entry_strs: Some(
                    Seq::new(
                        ((old(self)@.num_entry_strs + 1) * (num_cites + 1) * (ENT_STR_SIZE + 1)
                            + 1) as nat,
                        |i: int| END_OF_STRING,
                    ),
                ),
                ..old(self)@
            }),
    {
        assert(self.num_entry_strs + 1 <= (self.num_entry_strs + 1) * (num_cites + 1))
            by (nonlinear_arith);
        assert(num_cites + 1 <= (self.num_entry_strs + 1) * (num_cites + 1)) by (nonlinear_arith);
        assert((self.num_entry_strs + 1) * (num_cites + 1) <= (self.num_entry_strs + 1) * (
        num_cites + 1) * (ENT_STR_SIZE + 1)) by (nonlinear_arith);
        let mut new_buf = XBuf::new(
            (self.num_entry_strs + 1) * (num_cites + 1) * (ENT_STR_SIZE + 1),
        );
        new_buf.fill(END_OF_STRING);
        self.entry_strs = Some(new_buf);
    }
}

/// Puts `entries` back into the state that `EntryData::new` gives.
pub fn reset(entries: &mut EntryData)
    ensures
        final(entries)@ == EntryView::empty(),
{
    *entries = EntryData::new();
}

/// Calls `f` on the entry variables and returns what it returns.
pub fn with_entries<T, F: FnOnce(&EntryData) -> T>(entries: &EntryData, f: F) -> (r: T)
    requires
        f.requires((entries,)),
    ensures
        f.ensures((entries,), r),
{
    f(entries)
}

/// Calls `f` on the entry variables, which it may change, and returns what it returns.
pub fn with_entries_mut<T, F: FnOnce(&mut EntryData) -> T>(entries: &mut EntryData, f: F) -> (r: T)
    requires
        forall|e: &mut EntryData| *e == *old(entries) ==> f.requires((e,)),
    ensures
        exists|e: &mut EntryData|
            *e == *old(entries) && *final(e) == *final(entries) && f.ensures((e,), r),
{
    f(entries)
}

} // verus!
