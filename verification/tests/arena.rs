use bibtex_pool::entries::{reset as reset_entries, with_entries, with_entries_mut, EntryData};
use bibtex_pool::other::{OtherData, MAX_FIELDS};
use bibtex_pool::xbuf::{SafelyZero, XBuf};
use bibtex_pool::hash::FnClass;
use bibtex_pool::StrIlk;

#[test]
fn a_new_arena_has_one_cell_more_than_asked() {
    let buf: XBuf<u8> = XBuf::new(3);
    assert_eq!(buf.len(), 4);
    for pos in 0..4 {
        assert_eq!(buf.get(pos), 0);
    }
    let none: XBuf<i32> = XBuf::new(0);
    assert_eq!(none.len(), 1);
}

#[test]
fn growing_keeps_cells_and_adds_zeros() {
    let mut buf: XBuf<usize> = XBuf::new(2);
    buf.set(0, 10);
    buf.set(2, 30);
    buf.grow(5);
    assert_eq!(buf.len(), 8);
    assert_eq!(buf.get(0), 10);
    assert_eq!(buf.get(1), 0);
    assert_eq!(buf.get(2), 30);
    for pos in 3..8 {
        assert_eq!(buf.get(pos), 0);
    }
    buf.grow(0);
    assert_eq!(buf.len(), 8);
}

#[test]
fn fill_and_slice() {
    let mut buf: XBuf<u8> = XBuf::new(5);
    buf.fill(127);
    assert_eq!(buf.slice(0, 6), &[127u8; 6][..]);
    buf.set(2, 1);
    buf.set(3, 2);
    assert_eq!(buf.slice(2, 4), &[1u8, 2][..]);
    assert_eq!(buf.slice(4, 4), &[] as &[u8]);
}

#[test]
fn zero_values() {
    assert_eq!(<u8 as SafelyZero>::zero(), 0);
    assert_eq!(<usize as SafelyZero>::zero(), 0);
    assert_eq!(<i32 as SafelyZero>::zero(), 0);
    assert!(!<bool as SafelyZero>::zero());
    assert_eq!(<StrIlk as SafelyZero>::zero(), StrIlk::Text);
    assert_eq!(<FnClass as SafelyZero>::zero(), FnClass::Builtin);
}

#[test]
fn entry_variables_are_laid_out_per_citation() {
    let mut entries = EntryData::new();
    assert_eq!(entries.num_ent_ints(), 0);
    assert_eq!(entries.num_ent_strs(), 0);
    assert_eq!(entries.sort_key_num(), 0);
    entries.set_num_ent_ints(2);
    entries.set_num_ent_strs(1);
    entries.set_sort_key_num(0);

    assert_eq!(entries.ints_len(), 0);
    assert_eq!(entries.strs_len(), 0);
    // (2 + 1) * (4 + 1) = 15 cells, and one more
    entries.init_entry_ints(4);
    assert_eq!(entries.ints_len(), 16);
    for pos in 0..16 {
        assert_eq!(entries.ints(pos), 0);
    }
    entries.set_ints(15, -7);
    assert_eq!(entries.ints(15), -7);
    assert_eq!(entries.ints(14), 0);

    // (1 + 1) * (4 + 1) * 251 = 2510 cells, and one more
    entries.init_entry_strs(4);
    assert_eq!(entries.strs_len(), 2511);
    assert_eq!(entries.strs(0), 127);
    assert_eq!(entries.strs(2510), 127);
    entries.set_strs(3, b'x');
    assert_eq!(entries.strs(3), b'x');
    assert_eq!(entries.strs(4), 127);
    assert_eq!(entries.num_ent_ints(), 2);
    assert_eq!(entries.num_ent_strs(), 1);
}

#[test]
fn reset_forgets_the_entry_variables() {
    let mut entries = EntryData::new();
    entries.set_num_ent_strs(3);
    entries.set_sort_key_num(2);
    entries.set_num_ent_ints(5);
    entries.init_entry_ints(1);
    reset_entries(&mut entries);
    assert_eq!(entries.num_ent_strs(), 0);
    assert_eq!(entries.sort_key_num(), 0);
    assert_eq!(entries.num_ent_ints(), 0);
}

#[test]
fn with_entries_hands_the_variables_to_the_closure() {
    let mut entries = EntryData::new();
    let before = with_entries_mut(&mut entries, |entries| {
        let before = entries.num_ent_strs();
        entries.set_num_ent_strs(before + 2);
        before
    });
    assert_eq!(before, 0);
    assert_eq!(with_entries(&entries, |entries| entries.num_ent_strs()), 2);
}

#[test]
fn field_cells_grow_by_one_step() {
    let mut other = OtherData::new();
    assert_eq!(other.max_fields(), MAX_FIELDS + 1);
    other.check_field_overflow(MAX_FIELDS + 1);
    assert_eq!(other.max_fields(), MAX_FIELDS + 1);
    other.check_field_overflow(MAX_FIELDS + 2);
    assert_eq!(other.max_fields(), 2 * MAX_FIELDS + 1);
    other.set_num_fields(3);
    other.set_crossref_num(2);
    other.set_pre_defined_fields(1);
    assert_eq!(other.num_fields(), 3);
    assert_eq!(other.crossref_num(), 2);
    assert_eq!(other.pre_defined_fields(), 1);
}
