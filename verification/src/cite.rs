//! The citation lists: for each citation its key, its sort information,
//! the type of its entry, and whether the entry was found.
use vstd::prelude::*;
use crate::hash::{HashData, HashView, HASH_MAX};
use crate::other::{OtherData, OtherView, MAX_FIELDS};
use crate::pool::{StringPool, MAX_STRINGS, STR_SLACK};
use crate::symbols::{consistent, find};
use crate::xbuf::{ascending, zeros, XBuf};
use crate::{ASCIICode, CiteNumber, FindCiteLocs, HashPointer2, StrIlk, StrNumber};

verus! {

/// Initial number of citations that the lists have room for, and the step by which they grow.
pub const MAX_CITES: usize = 750;

/// The state of [`CiteInfo`] as plain values.
pub struct CiteView {
    /// The key of each citation.
    pub cite_list: Seq<StrNumber>,
    /// The sort information of each citation.
    pub cite_info: Seq<StrNumber>,
    /// The entry type of each citation.
    pub type_list: Seq<HashPointer2>,
    /// Whether the entry of each citation was found.
    pub entry_exists: Seq<bool>,
    /// The citation that is being worked on.
    pub cite_ptr: CiteNumber,
    /// The citation whose entry is being worked on.
    pub entry_cite_ptr: CiteNumber,
    /// Number of citations.
    pub num_cites: CiteNumber,
    /// Number of citations before the database files were read.
    pub old_num_cites: CiteNumber,
    /// Where the citations that stand for "all entries" start.
    pub all_marker: CiteNumber,
}

impl CiteView {
    /// Lists with room for `MAX_CITES + 1` citations, all cells zero, and all counters zero.
    pub open spec fn empty() -> CiteView {
        CiteView {
            cite_list: zeros::<StrNumber>((MAX_CITES + 1) as nat),
            cite_info: zeros::<StrNumber>((MAX_CITES + 1) as nat),
            type_list: zeros::<HashPointer2>((MAX_CITES + 1) as nat),
            entry_exists: zeros::<bool>((MAX_CITES + 1) as nat),
            cite_ptr: 0,
            entry_cite_ptr: 0,
            num_cites: 0,
            old_num_cites: 0,
            all_marker: 0,
        }
    }

    /// The four lists have the same length.
    pub open spec fn wf(self) -> bool {
        &&& self.cite_info.len() == self.cite_list.len()
        &&& self.type_list.len() == self.cite_list.len()
        &&& self.entry_exists.len() == self.cite_list.len()
    }

    /// The lists with room for `MAX_CITES` citations more, the new cells zero.
    pub open spec fn grown(self) -> CiteView {
        CiteView {
            cite_list: self.cite_list + zeros::<StrNumber>(MAX_CITES as nat),
            cite_info: self.cite_info + zeros::<StrNumber>(MAX_CITES as nat),
            type_list: self.type_list + zeros::<HashPointer2>(MAX_CITES as nat),
            entry_exists: self.entry_exists + zeros::<bool>(MAX_CITES as nat),
            ..self
        }
    }
}

/// The citation lists.
pub struct CiteInfo {
    cite_list: XBuf<StrNumber>,
    cite_info: XBuf<StrNumber>,
    type_list: XBuf<HashPointer2>,
    entry_exists: XBuf<bool>,
    cite_ptr: CiteNumber,
    entry_cite_ptr: CiteNumber,
    num_cites: CiteNumber,
    old_num_cites: CiteNumber,
    all_marker: CiteNumber,
}

impl View for CiteInfo {
    type V = CiteView;

    closed spec fn view(&self) -> CiteView {
        CiteView {
            cite_list: self.cite_list@,
            cite_info: self.cite_info@,
            type_list: self.type_list@,
            entry_exists: self.entry_exists@,
            cite_ptr: self.cite_ptr,
            entry_cite_ptr: self.entry_cite_ptr,
            num_cites: self.num_cites,
            old_num_cites: self.old_num_cites,
            all_marker: self.all_marker,
        }
    }
}

impl CiteInfo {
    /// The invariant of the lists: they have the same length.
    pub open spec fn wf(&self) -> bool {
        self@.wf()
    }

    /// Empty lists.
    pub fn new() -> (cites: CiteInfo)
        ensures
            cites.wf(),
            cites@ == CiteView::empty(),
    {
        CiteInfo {
            cite_list: XBuf::new(MAX_CITES),
            cite_info: XBuf::new(MAX_CITES),
            type_list: XBuf::new(MAX_CITES),
            entry_exists: XBuf::new(MAX_CITES),
            cite_ptr: 0,
            entry_cite_ptr: 0,
            num_cites: 0,
            old_num_cites: 0,
            all_marker: 0,
        }
    }

    /// Makes room for `MAX_CITES` citations more.
    fn grow(&mut self)
        ensures
            final(self)@ == old(self)@.grown(),
    {
        self.cite_list.grow(MAX_CITES);
        self.cite_info.grow(MAX_CITES);
        self.type_list.grow(MAX_CITES);
        self.entry_exists.grow(MAX_CITES);
    }

    /// Number of citations that the lists have room for.
    pub fn max_cites(&self) -> (n: usize)
        ensures
            n == self@.cite_list.len(),
    {
        self.cite_list.len()
    }

    /// Makes room for more citations if `last_cite` is the first number past the lists.
    pub fn check_cite_overflow(&mut self, last_cite: CiteNumber)
        ensures
            final(self)@ == if last_cite == old(self)@.cite_list.len() {
                old(self)@.grown()
            } else {
                old(self)@
            },
    {
        if last_cite >= 0 && last_cite as usize == self.cite_list.len() {
            self.grow();
        }
    }

    /// The key of citation `offset`.
    pub fn get_cite(&self, offset: usize) -> (num: StrNumber)
        requires
            offset < self@.cite_list.len(),
        ensures
            num == self@.cite_list[offset as int],
    {
        self.cite_list.get(offset)
    }

    /// Sets the key of citation `offset`.
    pub fn set_cite(&mut self, offset: usize, num: StrNumber)
        requires
            offset < old(self)@.cite_list.len(),
        ensures
            final(self)@ == (CiteView {
                cite_list: old(self)@.cite_list.update(offset as int, num),
                ..old(self)@
            }),
    {
        self.cite_list.set(offset, num);
    }

    /// The sort information of citation `offset`.
    pub fn get_info(&self, offset: usize) -> (num: StrNumber)
        requires
            offset < self@.cite_info.len(),
        ensures
            num == self@.cite_info[offset as int],
    {
        self.cite_info.get(offset)
    }

    /// Sets the sort information of citation `offset`.
    pub fn set_info(&mut self, offset: usize, num: StrNumber)
        requires
            offset < old(self)@.cite_info.len(),
        ensures
            final(self)@ == (CiteView {
                cite_info: old(self)@.cite_info.update(offset as int, num),
                ..old(self)@
            }),
    {
        self.cite_info.set(offset, num);
    }

    /// The entry type of citation `offset`.
    pub fn get_type(&self, offset: usize) -> (ty: HashPointer2)
        requires
            offset < self@.type_list.len(),
        ensures
            ty == self@.type_list[offset as int],
    {
        self.type_list.get(offset)
    }

    /// Sets the entry type of citation `offset`.
    pub fn set_type(&mut self, offset: usize, ty: HashPointer2)
        requires
            offset < old(self)@.type_list.len(),
        ensures
            final(self)@ == (CiteView {
                type_list: old(self)@.type_list.update(offset as int, ty),
                ..old(self)@
            }),
    {
        self.type_list.set(offset, ty);
    }

    /// Whether the entry of citation `offset` was found.
    pub fn get_exists(&self, offset: usize) -> (exists: bool)
        requires
            offset < self@.entry_exists.len(),
        ensures
            exists == self@.entry_exists[offset as int],
    {
        self.entry_exists.get(offset)
    }

    /// Sets whether the entry of citation `offset` was found.
    pub fn set_exists(&mut self, offset: usize, exists: bool)
        requires
            offset < old(self)@.entry_exists.len(),
        ensures
            final(self)@ == (CiteView {
                entry_exists: old(self)@.entry_exists.update(offset as int, exists),
                ..old(self)@
            }),
    {
        self.entry_exists.set(offset, exists);
    }

    /// The citation that is being worked on.
    pub fn ptr(&self) -> (ptr: CiteNumber)
        ensures
            ptr == self@.cite_ptr,
    {
        self.cite_ptr
    }

    /// Sets the citation that is being worked on.
    pub fn set_ptr(&mut self, ptr: CiteNumber)
        ensures
            final(self)@ == (CiteView { cite_ptr: ptr, ..old(self)@ }),
    {
        self.cite_ptr = ptr;
    }

    /// Number of citations.
    pub fn num_cites(&self) -> (n: CiteNumber)
        ensures
            n == self@.num_cites,
    {
        self.num_cites
    }

    /// Sets the number of citations.
    pub fn set_num_cites(&mut self, val: CiteNumber)
        ensures
            final(self)@ == (CiteView { num_cites: val, ..old(self)@ }),
    {
        self.num_cites = val;
    }

    /// The citation whose entry is being worked on.
    pub fn entry_cite_ptr(&self) -> (ptr: CiteNumber)
        ensures
            ptr == self@.entry_cite_ptr,
    {
        self.entry_cite_ptr
    }

    /// Sets the citation whose entry is being worked on.
    pub fn set_entry_cite_ptr(&mut self, val: CiteNumber)
        ensures
            final(self)@ == (CiteView { entry_cite_ptr: val, ..old(self)@ }),
    {
        self.entry_cite_ptr = val;
    }

    /// Number of citations before the database files were read.
    pub fn old_num_cites(&self) -> (n: CiteNumber)
        ensures
            n == self@.old_num_cites,
    {
        self.old_num_cites
    }

    /// Sets the number of citations before the database files were read.
    pub fn set_old_num_cites(&mut self, val: CiteNumber)
        ensures
            final(self)@ == (CiteView { old_num_cites: val, ..old(self)@ }),
    {
        self.old_num_cites = val;
    }

    /// Where the citations that stand for "all entries" start.
    pub fn all_marker(&self) -> (n: CiteNumber)
        ensures
            n == self@.all_marker,
    {
        self.all_marker
    }

    /// Sets where the citations that stand for "all entries" start.
    pub fn set_all_marker(&mut self, val: CiteNumber)
        ensures
            final(self)@ == (CiteView { all_marker: val, ..old(self)@ }),
    {
        self.all_marker = val;
    }

    /// Sorts the sort information of the citations from `left_end` up to
    /// `right_end` into ascending order; nothing else changes.
    pub fn quick_sort(&mut self, left_end: usize, right_end: usize)
        requires
            left_end <= right_end <= old(self)@.cite_info.len(),
        ensures
            final(self)@ == (CiteView { cite_info: final(self)@.cite_info, ..old(self)@ }),
            final(self)@.cite_info.len() == old(self)@.cite_info.len(),
            forall|i: int|
                0 <= i < left_end || right_end <= i < old(self)@.cite_info.len()
                    ==> final(self)@.cite_info[i] == old(self)@.cite_info[i],
            ascending(final(self)@.cite_info, left_end as int, right_end as int),
            final(self)@.cite_info.subrange(left_end as int, right_end as int).to_multiset()
                == old(self)@.cite_info.subrange(left_end as int, right_end as int).to_multiset(),
    {
        self.cite_info.sort_range(left_end, right_end);
    }
}

/// Puts `cites` back into the state that `CiteInfo::new` gives.
pub fn reset(cites: &mut CiteInfo)
    ensures
        final(cites).wf(),
        final(cites)@ == CiteView::empty(),
{
    *cites = CiteInfo::new();
}

/// Calls `f` on the citation lists and returns what it returns.
pub fn with_cites<T, F: FnOnce(&CiteInfo) -> T>(cites: &CiteInfo, f: F) -> (r: T)
    requires
        f.requires((cites,)),
    ensures
        f.ensures((cites,), r),
{
    f(cites)
}

/// Calls `f` on the citation lists, which it may change, and returns what it returns.
pub fn with_cites_mut<T, F: FnOnce(&mut CiteInfo) -> T>(cites: &mut CiteInfo, f: F) -> (r: T)
    requires
        forall|c: &mut CiteInfo| *c == *old(cites) ==> f.requires((c,)),
    ensures
        exists|c: &mut CiteInfo|
            *c == *old(cites) && *final(c) == *final(cites) && f.ensures((c,), r),
{
    f(cites)
}

/// A byte in lower case: the letters `A` to `Z` become `a` to `z`, every other byte stays.
pub open spec fn lower(code: ASCIICode) -> ASCIICode {
    if 65 <= code <= 90 {
        (code + 32) as u8
    } else {
        code
    }
}

/// A byte string in lower case.
pub open spec fn lower_case(bytes: Seq<ASCIICode>) -> Seq<ASCIICode> {
    Seq::new(bytes.len(), |i: int| lower(bytes[i]))
}

/// The bytes of `bytes` in lower case.
pub fn to_ascii_lowercase(bytes: &[ASCIICode]) -> (lowered: Vec<ASCIICode>)
    ensures
        lowered@ == lower_case(bytes@),
{
    let mut lowered: Vec<ASCIICode> = Vec::new();
    let mut pos: usize = 0;
    while pos < bytes.len()
        invariant
            pos <= bytes.len(),
            lowered@ == lower_case(bytes@.take(pos as int)),
        decreases bytes.len() - pos,
    {
        let code = bytes[pos];
        let low = if 65 <= code && code <= 90 {
            code + 32
        } else {
            code
        };
        lowered.push(low);
        pos += 1;
        assert(lowered@ =~= lower_case(bytes@.take(pos as int)));
    }
    assert(bytes@.take(pos as int) =~= bytes@);
    lowered
}

/// Records citation `new_cite`, whose key is the entry in slot `cite_loc`
/// and whose key in lower case is the entry in slot `lc_cite_loc`.
///
/// The lists and the field cells grow if citation `new_cite` needs them to.
/// The key's slot gets the citation's number as its auxiliary number, the
/// lower-case key's slot the number of the key's slot. Returns the number
/// of the next citation.
pub fn add_database_cite(
    cites: &mut CiteInfo,
    other: &mut OtherData,
    hash: &mut HashData,
    new_cite: CiteNumber,
    cite_loc: CiteNumber,
    lc_cite_loc: CiteNumber,
) -> (next_cite: CiteNumber)
    requires
        old(cites).wf(),
        old(hash).wf(),
        0 <= new_cite < i32::MAX,
        new_cite <= old(cites)@.cite_list.len(),
        0 <= cite_loc <= HASH_MAX,
        0 <= lc_cite_loc <= HASH_MAX,
        old(other)@.num_fields * (new_cite + 1) <= usize::MAX,
    ensures
        next_cite == new_cite + 1,
        final(cites).wf(),
        final(cites)@ == ({
            let room = if new_cite == old(cites)@.cite_list.len() {
                old(cites)@.grown()
            } else {
                old(cites)@
            };
            CiteView {
                cite_list: room.cite_list.update(
                    new_cite as int,
                    old(hash)@.text[cite_loc as int],
                ),
                ..room
            }
        }),
        final(other)@ == (OtherView {
            field_info: if old(other)@.num_fields * (new_cite + 1) > old(other)@.field_info.len() {
                old(other)@.field_info + zeros::<StrNumber>(MAX_FIELDS as nat)
            } else {
                old(other)@.field_info
            },
            ..old(other)@
        }),
        final(hash).wf(),
        final(hash)@ == (HashView {
            ilk_info: old(hash)@.ilk_info.update(cite_loc as int, new_cite).update(
                lc_cite_loc as int,
                cite_loc,
            ),
            ..old(hash)@
        }),
{
    if new_cite as usize == cites.max_cites() {
        cites.grow();
    }
    other.check_field_overflow(other.num_fields() * (new_cite as usize + 1));
    cites.set_cite(new_cite as usize, hash.text(cite_loc as usize));
    hash.set_ilk_info(cite_loc as usize, new_cite);
    hash.set_ilk_info(lc_cite_loc as usize, cite_loc);
    new_cite + 1
}

/// Looks the citation key `cite_str` up, as it is written under the tag
/// `Cite` and in lower case under the tag `LcCite`.
pub fn find_cite_locs_for_this_cite_key(
    pool: &StringPool,
    hash: &HashData,
    cite_str: StrNumber,
) -> (locs: FindCiteLocs)
    requires
        pool.wf(),
        consistent(pool@, hash@),
        0 < cite_str < pool@.len() + STR_SLACK,
        cite_str < MAX_STRINGS,
    ensures
        locs == ({
            let key = pool.bytes_of(cite_str as int);
            let cite = find(pool@, hash@, key, StrIlk::Cite);
            let lc_cite = find(pool@, hash@, lower_case(key), StrIlk::LcCite);
            FindCiteLocs {
                cite_loc: cite.loc,
                cite_found: cite.exists,
                lc_cite_loc: lc_cite.loc,
                lc_found: lc_cite.exists,
            }
        }),
{
    let val = pool.get_str(cite_str);
    let cite_hash = pool.lookup_str(hash, val, StrIlk::Cite);
    let lowered = to_ascii_lowercase(val);
    let lc_cite_hash = pool.lookup_str(hash, lowered.as_slice(), StrIlk::LcCite);
    FindCiteLocs {
        cite_loc: cite_hash.loc,
        cite_found: cite_hash.exists,
        lc_cite_loc: lc_cite_hash.loc,
        lc_found: lc_cite_hash.exists,
    }
}

} // verus!
