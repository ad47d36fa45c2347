//! Counters and storage for the fields of entries.
use vstd::prelude::*;
use crate::xbuf::{zeros, XBuf};
use crate::StrNumber;

verus! {

/// Initial number of field cells, and the step by which their arena grows.
pub const MAX_FIELDS: usize = 17250;

/// Number of a field.
pub type FieldLoc = usize;

/// The state of [`OtherData`] as plain values.
pub struct OtherView {
    /// The field cells, one run of `num_fields` cells per entry.
    pub field_info: Seq<StrNumber>,
    /// Number of fields that are known.
    pub num_fields: FieldLoc,
    /// Number of fields that were known before the style file was read.
    pub num_pre_defined_fields: FieldLoc,
    /// The number of the cross-reference field.
    pub crossref_num: FieldLoc,
}

/// Counters and storage for the fields of entries.
pub struct OtherData {
    field_info: XBuf<StrNumber>,
    num_fields: FieldLoc,
    num_pre_defined_fields: FieldLoc,
    crossref_num: FieldLoc,
}

impl View for OtherData {
    type V = OtherView;

    closed spec fn view(&self) -> OtherView {
        OtherView {
            field_info: self.field_info@,
            num_fields: self.num_fields,
            num_pre_defined_fields: self.num_pre_defined_fields,
            crossref_num: self.crossref_num,
        }
    }
}

impl OtherData {
    /// No field is known, and `MAX_FIELDS + 1` zeroed cells stand ready.
    pub fn new() -> (other: OtherData)
        ensures
            other@ == (OtherView {
                field_info: zeros::<StrNumber>((MAX_FIELDS + 1) as nat),
                num_fields: 0,
                num_pre_defined_fields: 0,
                crossref_num: 0,
            }),
    {
        OtherData {
            field_info: XBuf::new(MAX_FIELDS),
            num_fields: 0,
            num_pre_defined_fields: 0,
            crossref_num: 0,
        }
    }

    /// Number of fields that are known.
    pub fn num_fields(&self) -> (n: FieldLoc)
        ensures
            n == self@.num_fields,
    {
        self.num_fields
    }

    /// Sets the number of fields that are known.
    pub fn set_num_fields(&mut self, val: FieldLoc)
        ensures
            final(self)@ == (OtherView { num_fields: val, ..old(self)@ }),
    {
        self.num_fields = val;
    }

    /// Number of fields that were known before the style file was read.
    pub fn pre_defined_fields(&self) -> (n: FieldLoc)
        ensures
            n == self@.num_pre_defined_fields,
    {
        self.num_pre_defined_fields
    }

    /// Sets the number of fields that were known before the style file was read.
    pub fn set_pre_defined_fields(&mut self, val: FieldLoc)
        ensures
            final(self)@ == (OtherView { num_pre_defined_fields: val, ..old(self)@ }),
    {
        self.num_pre_defined_fields = val;
    }

    /// The number of the cross-reference field.
    pub fn crossref_num(&self) -> (n: FieldLoc)
        ensures
            n == self@.crossref_num,
    {
        self.crossref_num
    }

    /// Sets the number of the cross-reference field.
    pub fn set_crossref_num(&mut self, val: FieldLoc)
        ensures
            final(self)@ == (OtherView { crossref_num: val, ..old(self)@ }),
    {
        self.crossref_num = val;
    }

    /// Number of field cells.
    pub fn max_fields(&self) -> (n: usize)
        ensures
            n == self@.field_info.len(),
    {
        self.field_info.len()
    }

    /// Grows the field cells by `MAX_FIELDS` if `fields` cells are more than there are.
    pub fn check_field_overflow(&mut self, fields: usize)
        ensures
            final(self)@ == (OtherView {
                field_info: if fields > old(self)@.field_info.len() {
                    old(self)@.field_info + zeros::<StrNumber>(MAX_FIELDS as nat)
                } else {
                    old(self)@.field_info
                },
                ..old(self)@
            }),
    {
        if fields > self.field_info.len() {
            self.field_info.grow(MAX_FIELDS);
        }
    }
}

} // verus!
