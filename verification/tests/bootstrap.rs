use bibtex_pool::bootstrap::{
    pre_def_certain_strings, PreDefined, AUX_COMMAND_NUMS, GLOB_STR_SIZE, NUM_PRE_DEFINED,
    PRE_DEFINED,
};
use bibtex_pool::entries::{EntryData, ENT_STR_SIZE};
use bibtex_pool::hash::{FnClass, HashData, HASH_MAX};
use bibtex_pool::other::OtherData;
use bibtex_pool::pool::{StringPool, MAX_STRINGS};
use bibtex_pool::{BibtexError, StrIlk};

struct Run {
    pool: StringPool,
    hash: HashData,
    other: OtherData,
    entries: EntryData,
}

fn fresh() -> Run {
    Run {
        pool: StringPool::new(),
        hash: HashData::new(),
        other: OtherData::new(),
        entries: EntryData::new(),
    }
}

fn booted() -> (Run, PreDefined) {
    let mut run = fresh();
    let known =
        pre_def_certain_strings(&mut run.pool, &mut run.hash, &mut run.other, &mut run.entries)
            .unwrap();
    (run, known)
}

const BUILTINS: [&str; 37] = [
    "=",
    ">",
    "<",
    "+",
    "-",
    "*",
    ":=",
    "add.period$",
    "call.type$",
    "change.case$",
    "chr.to.int$",
    "cite$",
    "duplicate$",
    "empty$",
    "format.name$",
    "if$",
    "int.to.chr$",
    "int.to.str$",
    "missing$",
    "newline$",
    "num.names$",
    "pop$",
    "preamble$",
    "purify$",
    "quote$",
    "skip$",
    "stack$",
    "substring$",
    "swap$",
    "text.length$",
    "text.prefix$",
    "top$",
    "type$",
    "warning$",
    "while$",
    "width$",
    "write$",
];

#[test]
fn every_builtin_is_found_with_its_number() {
    let (run, _) = booted();
    let mut slots = Vec::new();
    for (number, name) in BUILTINS.iter().enumerate() {
        let res = run.pool.lookup_str(&run.hash, name.as_bytes(), StrIlk::BstFn);
        assert!(res.exists, "{} is missing", name);
        assert_eq!(run.hash.ilk_info(res.loc), number as i32);
        assert_eq!(run.hash.ty(res.loc), FnClass::Builtin);
        assert_eq!(run.hash.hash_ilk(res.loc), StrIlk::BstFn);
        assert_eq!(run.pool.get_str(run.hash.text(res.loc)), name.as_bytes());
        assert!(!slots.contains(&res.loc));
        slots.push(res.loc);
    }
}

#[test]
fn builtins_are_not_found_under_another_tag() {
    let (run, _) = booted();
    assert!(!run.pool.lookup_str(&run.hash, b"if$", StrIlk::Text).exists);
    assert!(!run.pool.lookup_str(&run.hash, b"if$", StrIlk::BstCommand).exists);
    assert!(!run.pool.lookup_str(&run.hash, b"IF$", StrIlk::BstFn).exists);
}

#[test]
fn commands_have_their_numbers() {
    let (run, _) = booted();
    let aux: [(&[u8], i32); 4] =
        [(b"\\bibdata", 0), (b"\\bibstyle", 1), (b"\\citation", 2), (b"\\@input", 3)];
    for (name, number) in aux.iter() {
        let res = run.pool.lookup_str(&run.hash, name, StrIlk::AuxCommand);
        assert!(res.exists);
        assert_eq!(run.hash.ilk_info(res.loc), *number);
    }
    let bst: [&[u8]; 10] = [
        b"entry",
        b"execute",
        b"function",
        b"integers",
        b"iterate",
        b"macro",
        b"read",
        b"reverse",
        b"sort",
        b"strings",
    ];
    for (number, name) in bst.iter().enumerate() {
        let res = run.pool.lookup_str(&run.hash, name, StrIlk::BstCommand);
        assert!(res.exists);
        assert_eq!(run.hash.ilk_info(res.loc), number as i32);
    }
    let bib: [&[u8]; 3] = [b"comment", b"preamble", b"string"];
    for (number, name) in bib.iter().enumerate() {
        let res = run.pool.lookup_str(&run.hash, name, StrIlk::BibCommand);
        assert!(res.exists);
        assert_eq!(run.hash.ilk_info(res.loc), number as i32);
    }
    let control: [&[u8]; 13] = [
        b"i", b"j", b"oe", b"OE", b"ae", b"AE", b"aa", b"AA", b"o", b"O", b"l", b"L", b"ss",
    ];
    for (number, name) in control.iter().enumerate() {
        let res = run.pool.lookup_str(&run.hash, name, StrIlk::ControlSeq);
        assert!(res.exists);
        assert_eq!(run.hash.ilk_info(res.loc), number as i32);
    }
    assert_eq!(AUX_COMMAND_NUMS, [2, 0, 1, 3]);
}

#[test]
fn well_known_strings_and_slots() {
    let (run, known) = booted();
    assert_eq!(known.s_aux_extension, 1);
    assert_eq!(run.pool.get_str(known.s_aux_extension), b".aux");
    assert_eq!(run.pool.get_str(known.s_null), b"");
    assert_eq!(run.pool.get_str(known.s_default), b"default.type");
    assert_eq!(known.s_null, 56);
    assert_eq!(known.s_default, 57);
    let skip = run.pool.lookup_str(&run.hash, b"skip$", StrIlk::BstFn);
    assert_eq!(known.b_default, skip.loc);

    let null = run.pool.lookup_str(&run.hash, b"", StrIlk::Text);
    assert!(null.exists);
    assert_eq!(run.hash.ty(null.loc), FnClass::StrLit);
    let default = run.pool.lookup_str(&run.hash, b"default.type", StrIlk::Text);
    assert!(default.exists);
    assert_eq!(run.hash.ty(default.loc), FnClass::StrLit);
    let ext = run.pool.lookup_str(&run.hash, b".aux", StrIlk::FileExt);
    assert!(ext.exists);
    assert_eq!(run.hash.text(ext.loc), known.s_aux_extension);
}

#[test]
fn strings_are_numbered_in_the_order_of_definition() {
    let (run, _) = booted();
    assert_eq!(PRE_DEFINED.len(), NUM_PRE_DEFINED);
    for (i, name) in PRE_DEFINED.iter().enumerate() {
        assert_eq!(run.pool.get_str(i + 1), name.as_bytes());
    }
    assert_eq!(run.pool.str_ptr(), NUM_PRE_DEFINED + 1);
}

#[test]
fn fields_and_variables_are_counted_in() {
    let (run, _) = booted();
    let crossref = run.pool.lookup_str(&run.hash, b"crossref", StrIlk::BstFn);
    assert!(crossref.exists);
    assert_eq!(run.hash.ty(crossref.loc), FnClass::Field);
    assert_eq!(run.hash.ilk_info(crossref.loc), 0);
    assert_eq!(run.other.crossref_num(), 0);
    assert_eq!(run.other.num_fields(), 1);
    assert_eq!(run.other.pre_defined_fields(), 1);

    let sort_key = run.pool.lookup_str(&run.hash, b"sort.key$", StrIlk::BstFn);
    assert!(sort_key.exists);
    assert_eq!(run.hash.ty(sort_key.loc), FnClass::StrEntryVar);
    assert_eq!(run.hash.ilk_info(sort_key.loc), 0);
    assert_eq!(run.entries.sort_key_num(), 0);
    assert_eq!(run.entries.num_ent_strs(), 1);

    let entry_max = run.pool.lookup_str(&run.hash, b"entry.max$", StrIlk::BstFn);
    assert!(entry_max.exists);
    assert_eq!(run.hash.ty(entry_max.loc), FnClass::IntGlblVar);
    assert_eq!(run.hash.ilk_info(entry_max.loc), 250);
    assert_eq!(ENT_STR_SIZE, 250);

    let global_max = run.pool.lookup_str(&run.hash, b"global.max$", StrIlk::BstFn);
    assert!(global_max.exists);
    assert_eq!(run.hash.ty(global_max.loc), FnClass::IntGlblVar);
    assert_eq!(run.hash.ilk_info(global_max.loc), 20000);
    assert_eq!(GLOB_STR_SIZE, 20000);
}

#[test]
fn counters_that_are_not_zero_are_carried_on() {
    let mut run = fresh();
    run.other.set_num_fields(4);
    run.entries.set_num_ent_strs(9);
    pre_def_certain_strings(&mut run.pool, &mut run.hash, &mut run.other, &mut run.entries)
        .unwrap();
    let crossref = run.pool.lookup_str(&run.hash, b"crossref", StrIlk::BstFn);
    assert_eq!(run.hash.ilk_info(crossref.loc), 4);
    assert_eq!(run.other.crossref_num(), 4);
    assert_eq!(run.other.num_fields(), 5);
    assert_eq!(run.other.pre_defined_fields(), 5);
    let sort_key = run.pool.lookup_str(&run.hash, b"sort.key$", StrIlk::BstFn);
    assert_eq!(run.hash.ilk_info(sort_key.loc), 9);
    assert_eq!(run.entries.sort_key_num(), 9);
    assert_eq!(run.entries.num_ent_strs(), 10);
}

#[test]
fn entries_made_before_are_kept() {
    let mut run = fresh();
    let mine = run.pool.lookup_str_insert(&mut run.hash, b"mine", StrIlk::Macro).unwrap();
    let early = run.pool.lookup_str_insert(&mut run.hash, b"if$", StrIlk::BstFn).unwrap();
    run.hash.set_ilk_info(mine.loc, 77);
    pre_def_certain_strings(&mut run.pool, &mut run.hash, &mut run.other, &mut run.entries)
        .unwrap();
    let found = run.pool.lookup_str(&run.hash, b"mine", StrIlk::Macro);
    assert!(found.exists);
    assert_eq!(found.loc, mine.loc);
    assert_eq!(run.hash.ilk_info(found.loc), 77);
    assert_eq!(run.pool.get_str(1), b"mine");
    // a name that was there keeps its slot and gets its number
    let again = run.pool.lookup_str(&run.hash, b"if$", StrIlk::BstFn);
    assert_eq!(again.loc, early.loc);
    assert_eq!(run.hash.ilk_info(again.loc), 15);
    assert_eq!(run.hash.ty(again.loc), FnClass::Builtin);
}

#[test]
fn defining_fails_where_string_numbers_run_out() {
    let mut run = fresh();
    for i in 0..(MAX_STRINGS - 3) {
        let text = format!("s{}", i);
        run.pool.lookup_str_insert(&mut run.hash, text.as_bytes(), StrIlk::Text).unwrap();
    }
    assert_eq!(run.pool.str_ptr(), MAX_STRINGS - 2);
    let r = pre_def_certain_strings(&mut run.pool, &mut run.hash, &mut run.other, &mut run.entries);
    assert_eq!(r, Err(BibtexError::StringOverflow));
    // the first two symbols were defined, the third could not be
    assert!(run.pool.lookup_str(&run.hash, b".aux", StrIlk::FileExt).exists);
    let citation = run.pool.lookup_str(&run.hash, b"\\citation", StrIlk::AuxCommand);
    assert!(citation.exists);
    assert_eq!(run.hash.ilk_info(citation.loc), 2);
    assert!(!run.pool.lookup_str(&run.hash, b"\\bibdata", StrIlk::AuxCommand).exists);
    assert!(!run.pool.lookup_str(&run.hash, b"if$", StrIlk::BstFn).exists);
    assert_eq!(run.other.num_fields(), 0);
    assert_eq!(run.entries.num_ent_strs(), 0);
    assert!(run.pool.lookup_str(&run.hash, b"s0", StrIlk::Text).exists);
    assert!(run.hash.used() <= HASH_MAX + 1);
}

#[test]
fn defining_twice_finds_everything_there() {
    let (mut run, first) = booted();
    let strings = run.pool.str_ptr();
    let second =
        pre_def_certain_strings(&mut run.pool, &mut run.hash, &mut run.other, &mut run.entries)
            .unwrap();
    assert_eq!(run.pool.str_ptr(), strings);
    assert_eq!(second.s_aux_extension, first.s_aux_extension);
    assert_eq!(second.s_null, first.s_null);
    assert_eq!(second.s_default, first.s_default);
    assert_eq!(second.b_default, first.b_default);
    // the counters moved on, and the two symbols that take their number from them follow
    assert_eq!(run.other.num_fields(), 2);
    assert_eq!(run.other.crossref_num(), 1);
    let crossref = run.pool.lookup_str(&run.hash, b"crossref", StrIlk::BstFn);
    assert_eq!(run.hash.ilk_info(crossref.loc), 1);
}
