//! The symbols that are known before any input is read: commands of the
//! auxiliary, style and database files, the built-in functions of the style
//! language, a few strings and variables, and the control sequences of
//! accented and foreign letters.
use vstd::prelude::*;
use vstd::string::StringSliceAdditionalSpecFns;
use crate::entries::{EntryData, EntryView, ENT_STR_SIZE};
use crate::hash::{FnClass, HashData, HashView};
use crate::other::{OtherData, OtherView};
use crate::pool::{StringPool, MAX_STRINGS};
use crate::symbols::{
    consistent, entries, intern, lemma_entry, lemma_entry_slot, lemma_intern, lemma_intern_fails,
    lemma_marks,
};
use crate::LookupRes;
use crate::{BibtexError, HashPointer, StrIlk, StrNumber};

verus! {

/// Longest value of a global string variable.
pub const GLOB_STR_SIZE: usize = 20000;

/// Number of predefined symbols.
pub const NUM_PRE_DEFINED: usize = 74;

/// The names of the predefined symbols, in the order in which they are defined.
pub const PRE_DEFINED: [&'static str; 74] = [
    ".aux",
    "\\citation",
    "\\bibdata",
    "\\bibstyle",
    "\\@input",
    "entry",
    "execute",
    "function",
    "integers",
    "iterate",
    "macro",
    "read",
    "reverse",
    "sort",
    "strings",
    "comment",
    "preamble",
    "string",
    "=",
    ">",
    "<",
    "+",
    "-",
    "*",
    ":=",
    "add.period$",
    "call.type$",
    "change.case$",
    "chr.to.int$",
    "cite$",
    "duplicate$",
    "empty$",
    "format.name$",
    "if$",
    "int.to.chr$",
    "int.to.str$",
    "missing$",
    "newline$",
    "num.names$",
    "pop$",
    "preamble$",
    "purify$",
    "quote$",
    "skip$",
    "stack$",
    "substring$",
    "swap$",
    "text.length$",
    "text.prefix$",
    "top$",
    "type$",
    "warning$",
    "while$",
    "width$",
    "write$",
    "",
    "default.type",
    "i",
    "j",
    "oe",
    "OE",
    "ae",
    "AE",
    "aa",
    "AA",
    "o",
    "O",
    "l",
    "L",
    "ss",
    "crossref",
    "sort.key$",
    "entry.max$",
    "global.max$",
];

/// The numbers by which the commands of an auxiliary file are told apart, in the order of their names.
pub const AUX_COMMAND_NUMS: [i32; 4] = [2, 0, 1, 3];

/// Where the extension of auxiliary files stands among the predefined symbols.
pub const AUX_EXTENSION: usize = 0;

/// Where the commands of an auxiliary file start.
pub const AUX_COMMANDS: usize = 1;

/// Where the commands of a style file start.
pub const BST_COMMANDS: usize = 5;

/// Where the commands of a database file start.
pub const BIB_COMMANDS: usize = 15;

/// Where the built-in functions start.
pub const BUILTINS: usize = 18;

/// Where the built-in function that does nothing stands.
pub const SKIP: usize = 43;

/// Where the empty string stands.
pub const NULL_STRING: usize = 55;

/// Where the name of the entry type that is used for unknown types stands.
pub const DEFAULT_TYPE: usize = 56;

/// Where the control sequences start.
pub const CONTROL_SEQS: usize = 57;

/// Where the cross-reference field stands.
pub const CROSSREF: usize = 70;

/// Where the sort key stands.
pub const SORT_KEY: usize = 71;

/// Where the variable that holds the longest entry string stands.
pub const ENTRY_MAX: usize = 72;

/// Where the variable that holds the longest global string stands.
pub const GLOBAL_MAX: usize = 73;

/// The bytes of the name of predefined symbol `i`.
pub open spec fn pre_def_name(i: int) -> Seq<u8> {
    PRE_DEFINED[i].spec_bytes()
}

/// The tag of predefined symbol `i`.
pub open spec fn pre_def_ilk(i: int) -> StrIlk {
    if i == AUX_EXTENSION {
        StrIlk::FileExt
    } else if i < BST_COMMANDS {
        StrIlk::AuxCommand
    } else if i < BIB_COMMANDS {
        StrIlk::BstCommand
    } else if i < BUILTINS {
        StrIlk::BibCommand
    } else if i < NULL_STRING {
        StrIlk::BstFn
    } else if i < CONTROL_SEQS {
        StrIlk::Text
    } else if i < CROSSREF {
        StrIlk::ControlSeq
    } else {
        StrIlk::BstFn
    }
}

/// The role that predefined symbol `i` is given, if it is given one.
pub open spec fn pre_def_class(i: int) -> Option<FnClass> {
    if i < BUILTINS {
        None
    } else if i < NULL_STRING {
        Some(FnClass::Builtin)
    } else if i < CONTROL_SEQS {
        Some(FnClass::StrLit)
    } else if i < CROSSREF {
        None
    } else if i == CROSSREF {
        Some(FnClass::Field)
    } else if i == SORT_KEY {
        Some(FnClass::StrEntryVar)
    } else {
        Some(FnClass::IntGlblVar)
    }
}

/// The auxiliary number that predefined symbol `i` is given, if it is given one.
///
/// Commands, built-in functions and control sequences get their number
/// within their group; the cross-reference field gets the next free field
/// number, the sort key the next free number of a string variable of an
/// entry, and the two global variables the size that they stand for.
pub open spec fn pre_def_info(i: int, num_fields: usize, num_ent_strs: usize) -> Option<i32> {
    if i == AUX_EXTENSION {
        None
    } else if i < BST_COMMANDS {
        Some(AUX_COMMAND_NUMS[i - AUX_COMMANDS])
    } else if i < BIB_COMMANDS {
        Some((i - BST_COMMANDS) as i32)
    } else if i < BUILTINS {
        Some((i - BIB_COMMANDS) as i32)
    } else if i < NULL_STRING {
        Some((i - BUILTINS) as i32)
    } else if i < CONTROL_SEQS {
        None
    } else if i < CROSSREF {
        Some((i - CONTROL_SEQS) as i32)
    } else if i == CROSSREF {
        Some(num_fields as i32)
    } else if i == SORT_KEY {
        Some(num_ent_strs as i32)
    } else if i == ENTRY_MAX {
        Some(ENT_STR_SIZE as i32)
    } else {
        Some(GLOB_STR_SIZE as i32)
    }
}

/// The table after the entry in slot `slot` was given a role and an auxiliary number.
pub open spec fn mark(t: HashView, slot: int, class: Option<FnClass>, info: Option<i32>) -> HashView {
    HashView {
        fn_type: match class {
            Some(c) => t.fn_type.update(slot, c),
            None => t.fn_type,
        },
        ilk_info: match info {
            Some(v) => t.ilk_info.update(slot, v),
            None => t.ilk_info,
        },
        ..t
    }
}

/// The strings and the table after the first `n` predefined symbols were
/// defined in turn, and the error that ended this, if one did.
///
/// Each symbol is interned under its tag and its entry is marked with its
/// role and its number. Nothing more is defined once a symbol could not be
/// interned.
pub open spec fn pre_defined(
    strings: Seq<Seq<u8>>,
    t: HashView,
    num_fields: usize,
    num_ent_strs: usize,
    n: nat,
) -> (Seq<Seq<u8>>, HashView, Option<BibtexError>)
    decreases n,
{
    if n == 0 {
        (strings, t, None)
    } else {
        let before = pre_defined(strings, t, num_fields, num_ent_strs, (n - 1) as nat);
        if before.2 is Some {
            before
        } else {
            let step = intern(before.0, before.1, pre_def_name(n - 1), pre_def_ilk(n - 1));
            match step.2 {
                Ok(res) => (
                    step.0,
                    mark(
                        step.1,
                        res.loc as int,
                        pre_def_class(n - 1),
                        pre_def_info(n - 1, num_fields, num_ent_strs),
                    ),
                    None,
                ),
                Err(e) => (step.0, step.1, Some(e)),
            }
        }
    }
}

/// Whether predefined symbol `i` is an entry with the role and the number that it is given.
pub open spec fn defined_as(
    strings: Seq<Seq<u8>>,
    t: HashView,
    num_fields: usize,
    num_ent_strs: usize,
    i: int,
) -> bool {
    let key = (pre_def_name(i), pre_def_ilk(i));
    let slot = entries(strings, t)[key] as int;
    &&& entries(strings, t).contains_key(key)
    &&& pre_def_class(i) matches Some(c) ==> t.fn_type[slot] == c
    &&& pre_def_info(i, num_fields, num_ent_strs) matches Some(v) ==> t.ilk_info[slot] == v
}

/// The strings and the slot that later passes refer to by name.
#[derive(Clone, Copy, Debug, PartialEq, Eq, Structural)]
pub struct PreDefined {
    /// The string `.aux`.
    pub s_aux_extension: StrNumber,
    /// The empty string.
    pub s_null: StrNumber,
    /// The string `default.type`.
    pub s_default: StrNumber,
    /// The slot of the built-in function `skip$`.
    pub b_default: HashPointer,
}

/// Whether predefined symbol `i` is an entry.
pub open spec fn pre_def_entry(strings: Seq<Seq<u8>>, t: HashView, i: int) -> bool {
    entries(strings, t).contains_key((pre_def_name(i), pre_def_ilk(i)))
}

/// The string number of predefined symbol `i`.
pub open spec fn pre_def_number(strings: Seq<Seq<u8>>, t: HashView, i: int) -> StrNumber {
    t.text[entries(strings, t)[(pre_def_name(i), pre_def_ilk(i))] as int]
}

/// The strings and the slot that `pre_def_certain_strings` returns, as the table holds them.
pub open spec fn well_known(strings: Seq<Seq<u8>>, t: HashView) -> PreDefined {
    PreDefined {
        s_aux_extension: pre_def_number(strings, t, AUX_EXTENSION as int),
        s_null: pre_def_number(strings, t, NULL_STRING as int),
        s_default: pre_def_number(strings, t, DEFAULT_TYPE as int),
        b_default: entries(strings, t)[(pre_def_name(SKIP as int), pre_def_ilk(SKIP as int))],
    }
}

/// The tag of predefined symbol `i`.
fn ilk_at(i: usize) -> (ilk: StrIlk)
    requires
        i < NUM_PRE_DEFINED,
    ensures
        ilk == pre_def_ilk(i as int),
{
    if i == AUX_EXTENSION {
        StrIlk::FileExt
    } else if i < BST_COMMANDS {
        StrIlk::AuxCommand
    } else if i < BIB_COMMANDS {
        StrIlk::BstCommand
    } else if i < BUILTINS {
        StrIlk::BibCommand
    } else if i < NULL_STRING {
        StrIlk::BstFn
    } else if i < CONTROL_SEQS {
        StrIlk::Text
    } else if i < CROSSREF {
        StrIlk::ControlSeq
    } else {
        StrIlk::BstFn
    }
}

/// The role that predefined symbol `i` is given, if it is given one.
fn class_at(i: usize) -> (class: Option<FnClass>)
    requires
        i < NUM_PRE_DEFINED,
    ensures
        class == pre_def_class(i as int),
{
    if i < BUILTINS {
        None
    } else if i < NULL_STRING {
        Some(FnClass::Builtin)
    } else if i < CONTROL_SEQS {
        Some(FnClass::StrLit)
    } else if i < CROSSREF {
        None
    } else if i == CROSSREF {
        Some(FnClass::Field)
    } else if i == SORT_KEY {
        Some(FnClass::StrEntryVar)
    } else {
        Some(FnClass::IntGlblVar)
    }
}

/// The auxiliary number that predefined symbol `i` is given, if it is given one.
fn info_at(i: usize, num_fields: usize, num_ent_strs: usize) -> (info: Option<i32>)
    requires
        i < NUM_PRE_DEFINED,
    ensures
        info == pre_def_info(i as int, num_fields, num_ent_strs),
{
    if i == AUX_EXTENSION {
        None
    } else if i < BST_COMMANDS {
        Some(AUX_COMMAND_NUMS[i - AUX_COMMANDS])
    } else if i < BIB_COMMANDS {
        Some((i - BST_COMMANDS) as i32)
    } else if i < BUILTINS {
        Some((i - BIB_COMMANDS) as i32)
    } else if i < NULL_STRING {
        Some((i - BUILTINS) as i32)
    } else if i < CONTROL_SEQS {
        None
    } else if i < CROSSREF {
        Some((i - CONTROL_SEQS) as i32)
    } else if i == CROSSREF {
        Some(#[verifier::truncate] (num_fields as i32))
    } else if i == SORT_KEY {
        Some(#[verifier::truncate] (num_ent_strs as i32))
    } else if i == ENTRY_MAX {
        Some(ENT_STR_SIZE as i32)
    } else {
        Some(GLOB_STR_SIZE as i32)
    }
}

/// Whether two character strings differ somewhere from place `k` on.
pub open spec fn differ(a: Seq<char>, b: Seq<char>, k: int) -> bool
    decreases a.len() - k,
{
    if k < 0 || k >= a.len() {
        false
    } else {
        a[k] != b[k] || differ(a, b, k + 1)
    }
}

/// Strings of different lengths, or that differ in some place, are not the same.
pub proof fn lemma_differ(a: Seq<char>, b: Seq<char>, k: int)
    requires
        differ(a, b, k) || a.len() != b.len(),
    ensures
        a != b,
    decreases a.len() - k,
{
    if a.len() == b.len() && 0 <= k < a.len() && a[k] == b[k] {
        lemma_differ(a, b, k + 1);
    }
}

/// No two predefined symbols have the same name and the same tag.
pub proof fn lemma_pre_defined_differ(i: int, j: int)
    requires
        0 <= i < j < NUM_PRE_DEFINED,
    ensures
        (pre_def_name(i), pre_def_ilk(i)) != (pre_def_name(j), pre_def_ilk(j)),
{
    if pre_def_ilk(i) == pre_def_ilk(j) {
        lemma_names_differ(i, j);
        lemma_differ(PRE_DEFINED[i]@, PRE_DEFINED[j]@, 0);
        vstd::utf8::encode_utf8_decode_utf8(PRE_DEFINED[i]@);
        vstd::utf8::encode_utf8_decode_utf8(PRE_DEFINED[j]@);
    }
}

/// Any two predefined symbols with the same tag differ in their names.
proof fn lemma_names_differ(i: int, j: int)
    requires
        0 <= i < j < NUM_PRE_DEFINED,
        pre_def_ilk(i) == pre_def_ilk(j),
    ensures
        differ(PRE_DEFINED[i]@, PRE_DEFINED[j]@, 0) || PRE_DEFINED[i]@.len() != PRE_DEFINED[j]@.len(),
{
    reveal_strlit(".aux");
    reveal_strlit("\\citation");
    reveal_strlit("\\bibdata");
    reveal_strlit("\\bibstyle");
    reveal_strlit("\\@input");
    reveal_strlit("entry");
    reveal_strlit("execute");
    reveal_strlit("function");
    reveal_strlit("integers");
    reveal_strlit("iterate");
    reveal_strlit("macro");
    reveal_strlit("read");
    reveal_strlit("reverse");
    reveal_strlit("sort");
    reveal_strlit("strings");
    reveal_strlit("comment");
    reveal_strlit("preamble");
    reveal_strlit("string");
    reveal_strlit("=");
    reveal_strlit(">");
    reveal_strlit("<");
    reveal_strlit("+");
    reveal_strlit("-");
    reveal_strlit("*");
    reveal_strlit(":=");
    reveal_strlit("add.period$");
    reveal_strlit("call.type$");
    reveal_strlit("change.case$");
    reveal_strlit("chr.to.int$");
    reveal_strlit("cite$");
    reveal_strlit("duplicate$");
    reveal_strlit("empty$");
    reveal_strlit("format.name$");
    reveal_strlit("if$");
    reveal_strlit("int.to.chr$");
    reveal_strlit("int.to.str$");
    reveal_strlit("missing$");
    reveal_strlit("newline$");
    reveal_strlit("num.names$");
    reveal_strlit("pop$");
    reveal_strlit("preamble$");
    reveal_strlit("purify$");
    reveal_strlit("quote$");
    reveal_strlit("skip$");
    reveal_strlit("stack$");
    reveal_strlit("substring$");
    reveal_strlit("swap$");
    reveal_strlit("text.length$");
    reveal_strlit("text.prefix$");
    reveal_strlit("top$");
    reveal_strlit("type$");
    reveal_strlit("warning$");
    reveal_strlit("while$");
    reveal_strlit("width$");
    reveal_strlit("write$");
    reveal_strlit("");
    reveal_strlit("default.type");
    reveal_strlit("i");
    reveal_strlit("j");
    reveal_strlit("oe");
    reveal_strlit("OE");
    reveal_strlit("ae");
    reveal_strlit("AE");
    reveal_strlit("aa");
    reveal_strlit("AA");
    reveal_strlit("o");
    reveal_strlit("O");
    reveal_strlit("l");
    reveal_strlit("L");
    reveal_strlit("ss");
    reveal_strlit("crossref");
    reveal_strlit("sort.key$");
    reveal_strlit("entry.max$");
    reveal_strlit("global.max$");
    reveal_with_fuel(differ, 14);
}

/// Once a symbol could not be interned, the state stays as it was then.
pub proof fn lemma_pre_defined_failed(
    strings: Seq<Seq<u8>>,
    t: HashView,
    num_fields: usize,
    num_ent_strs: usize,
    n: nat,
    m: nat,
)
    requires
        n <= m,
        pre_defined(strings, t, num_fields, num_ent_strs, n).2 is Some,
    ensures
        pre_defined(strings, t, num_fields, num_ent_strs, m) == pre_defined(
            strings,
            t,
            num_fields,
            num_ent_strs,
            n,
        ),
    decreases m,
{
    if n < m {
        lemma_pre_defined_failed(strings, t, num_fields, num_ent_strs, n, (m - 1) as nat);
    }
}

/// Defining the first `n` predefined symbols keeps the invariant, every
/// string and every entry that was there; it takes at most `n` string
/// numbers and `n` free slots, and it succeeds where that many are left.
/// Where it succeeds, each of the `n` symbols is an entry with the role and
/// the number that it is given.
pub proof fn lemma_pre_defined(
    strings: Seq<Seq<u8>>,
    t: HashView,
    num_fields: usize,
    num_ent_strs: usize,
    n: nat,
)
    requires
        consistent(strings, t),
        n <= NUM_PRE_DEFINED,
    ensures
        ({
            let after = pre_defined(strings, t, num_fields, num_ent_strs, n);
            &&& consistent(after.0, after.1)
            &&& strings.len() <= after.0.len() <= strings.len() + n
            &&& forall|s: int| 0 <= s < strings.len() ==> after.0[s] == strings[s]
            &&& after.1.free_slots() + n >= t.free_slots()
            &&& forall|p: int|
                HashView::is_slot(p) && #[trigger] t.text[p] != 0 ==> after.1.text[p] == t.text[p]
            &&& forall|k: (Seq<u8>, StrIlk)| #[trigger]
                entries(strings, t).contains_key(k) ==> entries(after.0, after.1).contains_key(k)
                    && entries(after.0, after.1)[k] == entries(strings, t)[k]
            &&& t.free_slots() >= n && strings.len() + n <= MAX_STRINGS ==> after.2 is None
            &&& after.2 is None ==> forall|i: int|
                0 <= i < n ==> #[trigger] defined_as(
                    after.0,
                    after.1,
                    num_fields,
                    num_ent_strs,
                    i,
                )
        }),
    decreases n,
{
    if n > 0 {
        let before = pre_defined(strings, t, num_fields, num_ent_strs, (n - 1) as nat);
        let after = pre_defined(strings, t, num_fields, num_ent_strs, n);
        lemma_pre_defined(strings, t, num_fields, num_ent_strs, (n - 1) as nat);
        if before.2 is None {
            let name = pre_def_name(n - 1);
            let ilk = pre_def_ilk(n - 1);
            let class = pre_def_class(n - 1);
            let info = pre_def_info(n - 1, num_fields, num_ent_strs);
            let step = intern(before.0, before.1, name, ilk);
            lemma_intern(before.0, before.1, name, ilk);
            lemma_intern_fails(before.0, before.1, name, ilk);
            assert forall|p: int| HashView::is_slot(p) && #[trigger] t.text[p] != 0 implies step.1.text[p]
                == t.text[p] by {
                assert(before.1.text[p] == t.text[p]);
                assert(before.1.text[p] != 0);
            }
            assert forall|k: (Seq<u8>, StrIlk)| #[trigger]
                entries(strings, t).contains_key(k) implies entries(step.0, step.1).contains_key(k)
                && entries(step.0, step.1)[k] == entries(strings, t)[k] by {
                assert(entries(before.0, before.1).contains_key(k));
            }
            if step.2 is Ok {
                let loc = step.2->Ok_0.loc as int;
                lemma_marks(step.0, step.1, mark(step.1, loc, class, info));
                lemma_entry(step.0, step.1, loc, name, ilk);
                assert forall|i: int| 0 <= i < n implies #[trigger] defined_as(
                    after.0,
                    after.1,
                    num_fields,
                    num_ent_strs,
                    i,
                ) by {
                    if i < n - 1 {
                        let key = (pre_def_name(i), pre_def_ilk(i));
                        assert(defined_as(before.0, before.1, num_fields, num_ent_strs, i));
                        lemma_pre_defined_differ(i, n - 1);
                        assert(entries(before.0, before.1).contains_key(key));
                        assert(entries(step.0, step.1).contains_key(key));
                        assert(entries(step.0, step.1)[key] == entries(before.0, before.1)[key]);
                        lemma_entry_slot(step.0, step.1, key.0, key.1);
                        if entries(step.0, step.1)[key] == loc {
                            assert(key.0 == name && key.1 == ilk);
                        }
                    }
                }
            }
        }
    }
}

/// Two predefined symbols that are entries are held by two slots.
pub proof fn lemma_pre_defined_apart(strings: Seq<Seq<u8>>, t: HashView, i: int, j: int)
    requires
        0 <= i < j < NUM_PRE_DEFINED,
        entries(strings, t).contains_key((pre_def_name(i), pre_def_ilk(i))),
        entries(strings, t).contains_key((pre_def_name(j), pre_def_ilk(j))),
    ensures
        entries(strings, t)[(pre_def_name(i), pre_def_ilk(i))] != entries(strings, t)[(
            pre_def_name(j),
            pre_def_ilk(j),
        )],
{
    lemma_pre_defined_differ(i, j);
    lemma_entry_slot(strings, t, pre_def_name(i), pre_def_ilk(i));
    lemma_entry_slot(strings, t, pre_def_name(j), pre_def_ilk(j));
}

/// Defines predefined symbol `i`: interns its name under its tag and
/// gives the entry its role and its auxiliary number.
fn define(
    pool: &mut StringPool,
    hash: &mut HashData,
    i: usize,
    num_fields: usize,
    num_ent_strs: usize,
) -> (r: Result<LookupRes, BibtexError>)
    requires
        old(pool).wf(),
        consistent(old(pool)@, old(hash)@),
        i < NUM_PRE_DEFINED,
    ensures
        final(pool).wf(),
        consistent(final(pool)@, final(hash)@),
        ({
            let step = intern(
                old(pool)@,
                old(hash)@,
                pre_def_name(i as int),
                pre_def_ilk(i as int),
            );
            &&& final(pool)@ == step.0
            &&& match r {
                Ok(res) => {
                    &&& step.2 == Ok::<LookupRes, BibtexError>(res)
                    &&& HashView::is_slot(res.loc as int)
                    &&& final(hash)@ == mark(
                        step.1,
                        res.loc as int,
                        pre_def_class(i as int),
                        pre_def_info(i as int, num_fields, num_ent_strs),
                    )
                    &&& pre_def_entry(final(pool)@, final(hash)@, i as int)
                    &&& entries(final(pool)@, final(hash)@)[(
                        pre_def_name(i as int),
                        pre_def_ilk(i as int),
                    )] == res.loc
                },
                Err(e) => step.2 == Err::<LookupRes, BibtexError>(e) && final(hash)@
                    == step.1,
            }
        }),
        forall|j: int| #[trigger]
            pre_def_entry(old(pool)@, old(hash)@, j) ==> {
                &&& pre_def_entry(final(pool)@, final(hash)@, j)
                &&& entries(final(pool)@, final(hash)@)[(pre_def_name(j), pre_def_ilk(j))]
                    == entries(old(pool)@, old(hash)@)[(pre_def_name(j), pre_def_ilk(j))]
                &&& pre_def_number(final(pool)@, final(hash)@, j) == pre_def_number(
                    old(pool)@,
                    old(hash)@,
                    j,
                )
            },
{
    let ilk = ilk_at(i);
    proof {
        lemma_intern(pool@, hash@, pre_def_name(i as int), ilk);
    }
    let r = pool.lookup_str_insert(hash, PRE_DEFINED[i].as_bytes(), ilk);
    match r {
        Ok(res) => {
            let ghost interned = hash@;
            if let Some(class) = class_at(i) {
                hash.set_ty(res.loc, class);
            }
            if let Some(info) = info_at(i, num_fields, num_ent_strs) {
                hash.set_ilk_info(res.loc, info);
            }
            proof {
                assert(hash@ == mark(
                    interned,
                    res.loc as int,
                    pre_def_class(i as int),
                    pre_def_info(i as int, num_fields, num_ent_strs),
                ));
                lemma_marks(pool@, interned, hash@);
                lemma_entry(pool@, hash@, res.loc as int, pre_def_name(i as int), ilk);
            }
        },
        Err(_) => {},
    }
    proof {
        assert forall|j: int| #[trigger] pre_def_entry(old(pool)@, old(hash)@, j) implies {
            &&& pre_def_entry(pool@, hash@, j)
            &&& entries(pool@, hash@)[(pre_def_name(j), pre_def_ilk(j))] == entries(
                old(pool)@,
                old(hash)@,
            )[(pre_def_name(j), pre_def_ilk(j))]
            &&& pre_def_number(pool@, hash@, j) == pre_def_number(old(pool)@, old(hash)@, j)
        } by {
            lemma_kept(old(pool)@, old(hash)@, pool@, hash@, j);
        }
    }
    r
}

/// Defines the predefined symbols, in the order of `PRE_DEFINED`.
///
/// Each name is interned under its tag, and its entry is given its role
/// and its auxiliary number. The cross-reference field takes the next free
/// field number and the sort key the next free number of a string variable
/// of an entry; `other` and `entries` count them in. The first symbol that
/// cannot be interned ends the run with its error, and what was defined
/// until then stays defined.
pub fn pre_def_certain_strings(
    pool: &mut StringPool,
    hash: &mut HashData,
    other: &mut OtherData,
    entries: &mut EntryData,
) -> (r: Result<PreDefined, BibtexError>)
    requires
        old(pool).wf(),
        consistent(old(pool)@, old(hash)@),
        old(other)@.num_fields < usize::MAX,
        old(entries)@.num_entry_strs < usize::MAX,
    ensures
        final(pool).wf(),
        consistent(final(pool)@, final(hash)@),
        ({
            let num_fields = old(other)@.num_fields;
            let num_ent_strs = old(entries)@.num_entry_strs;
            let after = pre_defined(
                old(pool)@,
                old(hash)@,
                num_fields,
                num_ent_strs,
                NUM_PRE_DEFINED as nat,
            );
            let crossref_done = pre_defined(
                old(pool)@,
                old(hash)@,
                num_fields,
                num_ent_strs,
                (CROSSREF + 1) as nat,
            ).2 is None;
            let sort_key_done = pre_defined(
                old(pool)@,
                old(hash)@,
                num_fields,
                num_ent_strs,
                (SORT_KEY + 1) as nat,
            ).2 is None;
            &&& final(pool)@ == after.0
            &&& final(hash)@ == after.1
            &&& match r {
                Ok(known) => {
                    &&& after.2 is None
                    &&& crossref_done
                    &&& sort_key_done
                    &&& known == well_known(after.0, after.1)
                    &&& forall|i: int|
                        0 <= i < NUM_PRE_DEFINED ==> #[trigger] defined_as(
                            after.0,
                            after.1,
                            num_fields,
                            num_ent_strs,
                            i,
                        )
                },
                Err(e) => after.2 == Some(e),
            }
            &&& old(hash)@.free_slots() >= NUM_PRE_DEFINED && old(pool)@.len() + NUM_PRE_DEFINED
                <= MAX_STRINGS ==> r is Ok
            &&& final(other)@ == if crossref_done {
                OtherView {
                    crossref_num: num_fields,
                    num_fields: (num_fields + 1) as usize,
                    num_pre_defined_fields: (num_fields + 1) as usize,
                    ..old(other)@
                }
            } else {
                old(other)@
            }
            &&& final(entries)@ == if sort_key_done {
                EntryView {
                    sort_key_num: num_ent_strs,
                    num_entry_strs: (num_ent_strs + 1) as usize,
                    ..old(entries)@
                }
            } else {
                old(entries)@
            }
        }),
{
    let num_fields = other.num_fields();
    let num_ent_strs = entries.num_ent_strs();
    proof {
        lemma_pre_defined(pool@, hash@, num_fields, num_ent_strs, NUM_PRE_DEFINED as nat);
    }
    let ghost room = hash@.free_slots() >= NUM_PRE_DEFINED && pool@.len() + NUM_PRE_DEFINED
        <= MAX_STRINGS;
    let mut known = PreDefined { s_aux_extension: 0, s_null: 0, s_default: 0, b_default: 0 };
    let mut i: usize = 0;
    while i < NUM_PRE_DEFINED
        invariant
            i <= NUM_PRE_DEFINED,
            pool.wf(),
            consistent(old(pool)@, old(hash)@),
            consistent(pool@, hash@),
            room == (old(hash)@.free_slots() >= NUM_PRE_DEFINED && old(pool)@.len()
                + NUM_PRE_DEFINED <= MAX_STRINGS),
            room ==> pre_defined(
                old(pool)@,
                old(hash)@,
                num_fields,
                num_ent_strs,
                NUM_PRE_DEFINED as nat,
            ).2 is None,
            num_fields == old(other)@.num_fields,
            num_ent_strs == old(entries)@.num_entry_strs,
            num_fields < usize::MAX,
            num_ent_strs < usize::MAX,
            (pool@, hash@, None::<BibtexError>) == pre_defined(
                old(pool)@,
                old(hash)@,
                num_fields,
                num_ent_strs,
                i as nat,
            ),
            i > AUX_EXTENSION ==> known.s_aux_extension == well_known(pool@, hash@).s_aux_extension
                && pre_def_entry(pool@, hash@, AUX_EXTENSION as int),
            i > SKIP ==> known.b_default == well_known(pool@, hash@).b_default && pre_def_entry(
                pool@,
                hash@,
                SKIP as int,
            ),
            i > NULL_STRING ==> known.s_null == well_known(pool@, hash@).s_null && pre_def_entry(
                pool@,
                hash@,
                NULL_STRING as int,
            ),
            i > DEFAULT_TYPE ==> known.s_default == well_known(pool@, hash@).s_default
                && pre_def_entry(pool@, hash@, DEFAULT_TYPE as int),
            other@ == if i > CROSSREF {
                OtherView {
                    crossref_num: num_fields,
                    num_fields: (num_fields + 1) as usize,
                    num_pre_defined_fields: (num_fields + 1) as usize,
                    ..old(other)@
                }
            } else {
                old(other)@
            },
            entries@ == if i > SORT_KEY {
                EntryView {
                    sort_key_num: num_ent_strs,
                    num_entry_strs: (num_ent_strs + 1) as usize,
                    ..old(entries)@
                }
            } else {
                old(entries)@
            },
        decreases NUM_PRE_DEFINED - i,
    {
        let res = match define(pool, hash, i, num_fields, num_ent_strs) {
            Ok(res) => res,
            Err(e) => {
                proof {
                    lemma_pre_defined_stops(
                        old(pool)@,
                        old(hash)@,
                        num_fields,
                        num_ent_strs,
                        i as nat,
                    );
                }
                return Err(e);
            },
        };
        if i == AUX_EXTENSION {
            known.s_aux_extension = hash.text(res.loc);
        } else if i == SKIP {
            known.b_default = res.loc;
        } else if i == NULL_STRING {
            known.s_null = hash.text(res.loc);
        } else if i == DEFAULT_TYPE {
            known.s_default = hash.text(res.loc);
        } else if i == CROSSREF {
            other.set_crossref_num(num_fields);
            other.set_num_fields(num_fields + 1);
            other.set_pre_defined_fields(num_fields + 1);
        } else if i == SORT_KEY {
            entries.set_sort_key_num(num_ent_strs);
            entries.set_num_ent_strs(num_ent_strs + 1);
        }
        i += 1;
    }
    proof {
        lemma_pre_defined(
            old(pool)@,
            old(hash)@,
            num_fields,
            num_ent_strs,
            NUM_PRE_DEFINED as nat,
        );
        lemma_pre_defined_done(
            old(pool)@,
            old(hash)@,
            num_fields,
            num_ent_strs,
            (CROSSREF + 1) as nat,
            NUM_PRE_DEFINED as nat,
        );
        lemma_pre_defined_done(
            old(pool)@,
            old(hash)@,
            num_fields,
            num_ent_strs,
            (SORT_KEY + 1) as nat,
            NUM_PRE_DEFINED as nat,
        );
    }
    Ok(known)
}

/// Where the symbol after the first `i` could not be interned, the state
/// stays as it is then, and the symbols that were defined are the first `i`.
proof fn lemma_pre_defined_stops(
    strings: Seq<Seq<u8>>,
    t: HashView,
    num_fields: usize,
    num_ent_strs: usize,
    i: nat,
)
    requires
        i < NUM_PRE_DEFINED,
        pre_defined(strings, t, num_fields, num_ent_strs, i).2 is None,
        pre_defined(strings, t, num_fields, num_ent_strs, i + 1).2 is Some,
    ensures
        pre_defined(strings, t, num_fields, num_ent_strs, NUM_PRE_DEFINED as nat) == pre_defined(
            strings,
            t,
            num_fields,
            num_ent_strs,
            i + 1,
        ),
        pre_defined(strings, t, num_fields, num_ent_strs, (CROSSREF + 1) as nat).2 is None <==> i
            > CROSSREF,
        pre_defined(strings, t, num_fields, num_ent_strs, (SORT_KEY + 1) as nat).2 is None <==> i
            > SORT_KEY,
{
    lemma_pre_defined_failed(strings, t, num_fields, num_ent_strs, i + 1, NUM_PRE_DEFINED as nat);
    if i <= CROSSREF {
        lemma_pre_defined_failed(strings, t, num_fields, num_ent_strs, i + 1, (CROSSREF + 1) as nat);
    } else {
        lemma_pre_defined_done(strings, t, num_fields, num_ent_strs, (CROSSREF + 1) as nat, i);
    }
    if i <= SORT_KEY {
        lemma_pre_defined_failed(strings, t, num_fields, num_ent_strs, i + 1, (SORT_KEY + 1) as nat);
    } else {
        lemma_pre_defined_done(strings, t, num_fields, num_ent_strs, (SORT_KEY + 1) as nat, i);
    }
}

/// Where every symbol up to the `m`th was defined, so was every symbol up to the `n`th, for `n <= m`.
proof fn lemma_pre_defined_done(
    strings: Seq<Seq<u8>>,
    t: HashView,
    num_fields: usize,
    num_ent_strs: usize,
    n: nat,
    m: nat,
)
    requires
        n <= m,
        pre_defined(strings, t, num_fields, num_ent_strs, m).2 is None,
    ensures
        pre_defined(strings, t, num_fields, num_ent_strs, n).2 is None,
{
    if pre_defined(strings, t, num_fields, num_ent_strs, n).2 is Some {
        lemma_pre_defined_failed(strings, t, num_fields, num_ent_strs, n, m);
    }
}

/// A predefined symbol that is an entry stays the same entry, under the
/// same string number, when taken slots keep their string and their tag.
proof fn lemma_kept(
    strings: Seq<Seq<u8>>,
    t: HashView,
    strings1: Seq<Seq<u8>>,
    t1: HashView,
    i: int,
)
    requires
        consistent(strings, t),
        consistent(strings1, t1),
        strings.len() <= strings1.len(),
        forall|s: int| 0 <= s < strings.len() ==> strings1[s] == strings[s],
        forall|p: int|
            HashView::is_slot(p) && #[trigger] t.text[p] != 0 ==> t1.text[p] == t.text[p]
                && t1.ilk[p] == t.ilk[p],
    ensures
        pre_def_entry(strings, t, i) ==> {
            &&& pre_def_entry(strings1, t1, i)
            &&& entries(strings1, t1)[(pre_def_name(i), pre_def_ilk(i))] == entries(strings, t)[(
                pre_def_name(i),
                pre_def_ilk(i),
            )]
            &&& pre_def_number(strings1, t1, i) == pre_def_number(strings, t, i)
        },
{
    if pre_def_entry(strings, t, i) {
        let key = (pre_def_name(i), pre_def_ilk(i));
        let p = entries(strings, t)[key] as int;
        lemma_entry_slot(strings, t, key.0, key.1);
        assert(t.text[p] != 0);
        assert(t.text[p] < strings.len());
        lemma_entry(strings1, t1, p, key.0, key.1);
    }
}

} // verus!
