use bibtex_pool::hash::{HashData, HASH_BASE, HASH_MAX, HASH_PRIME, HASH_SIZE};
use bibtex_pool::pool::{
    reset, str_lookup, with_pool, with_pool_mut, LookupErr, StringPool, MAX_STRINGS, POOL_SIZE,
    STR_SLACK,
};
use bibtex_pool::{BibtexError, StrIlk};

#[test]
fn test_pool() {
    let mut hash = HashData::new();
    let mut new_pool = StringPool::new();
    let res = new_pool
        .lookup_str_insert(&mut hash, b"a cool string", StrIlk::Text)
        .unwrap();
    assert!(!res.exists);
    assert_eq!(
        new_pool.try_get_str(hash.text(res.loc)),
        Ok(b"a cool string" as &[_])
    );

    let res2 = new_pool
        .lookup_str_insert(&mut hash, b"a cool string", StrIlk::Text)
        .unwrap();
    assert!(res2.exists);
    assert_eq!(
        new_pool.try_get_str(hash.text(res2.loc)),
        Ok(b"a cool string" as &[_])
    );

    let res3 = new_pool.lookup_str(&hash, b"a cool string", StrIlk::Text);
    assert!(res3.exists);
    assert_eq!(
        new_pool.try_get_str(hash.text(res3.loc)),
        Ok(b"a cool string" as &[_])
    );

    let res4 = new_pool.lookup_str(&hash, b"a bad string", StrIlk::Text);
    assert!(!res4.exists);
    assert_eq!(
        new_pool.try_get_str(hash.text(res4.loc)),
        Err(LookupErr::DoesntExist)
    );
}

#[test]
fn scenario_abc_under_two_tags() {
    let mut hash = HashData::new();
    let mut pool = StringPool::new();

    let first = pool.lookup_str_insert(&mut hash, b"abc", StrIlk::Text).unwrap();
    assert!(!first.exists);
    let n = hash.text(first.loc);
    assert_eq!(n, 1);

    let second = pool.lookup_str_insert(&mut hash, b"abc", StrIlk::Text).unwrap();
    assert!(second.exists);
    assert_eq!(second.loc, first.loc);
    assert_eq!(hash.text(second.loc), n);

    let third = pool.lookup_str_insert(&mut hash, b"abc", StrIlk::ControlSeq).unwrap();
    assert!(!third.exists);
    assert_ne!(third.loc, first.loc);
    assert_eq!(hash.text(third.loc), n);
    assert_eq!(hash.hash_ilk(third.loc), StrIlk::ControlSeq);
    assert_eq!(hash.hash_ilk(first.loc), StrIlk::Text);

    let missing = pool.lookup_str(&hash, b"xyz", StrIlk::Text);
    assert!(!missing.exists);
}

#[test]
fn hash_of_abc_is_683() {
    let hash = HashData::new();
    // ((2 * ((2 * 97 + 98) % 30011) + 99) % 30011
    assert_eq!(StringPool::hash_str(&hash, b"abc"), 683);
    assert_eq!(StringPool::hash_str(&hash, b""), 0);
    assert_eq!(StringPool::hash_str(&hash, b"a"), 97);
    assert_eq!(hash.prime(), 30011);
}

#[test]
fn hash_wraps_at_the_prime() {
    let hash = HashData::new();
    let mut expected: usize = 0;
    let bytes = [255u8; 40];
    for b in bytes.iter() {
        expected = (2 * expected + *b as usize) % 30011;
    }
    assert!(expected < 30011);
    assert_eq!(StringPool::hash_str(&hash, &bytes), expected);
}

#[test]
fn first_entry_goes_to_its_home_slot() {
    let mut hash = HashData::new();
    let mut pool = StringPool::new();
    let res = pool.lookup_str_insert(&mut hash, b"abc", StrIlk::Text).unwrap();
    assert_eq!(res.loc, 684);
    assert_eq!(hash.next(res.loc), 0);
    assert_eq!(hash.used(), HASH_MAX + 1);
}

#[test]
fn collision_claims_the_highest_free_slot() {
    let mut hash = HashData::new();
    let mut pool = StringPool::new();
    let first = pool.lookup_str_insert(&mut hash, b"abc", StrIlk::Text).unwrap();
    let second = pool.lookup_str_insert(&mut hash, b"abc", StrIlk::Cite).unwrap();
    assert_eq!(second.loc, HASH_MAX);
    assert_eq!(hash.next(first.loc), HASH_MAX);
    assert_eq!(hash.used(), HASH_MAX);
    let third = pool.lookup_str_insert(&mut hash, b"abc", StrIlk::LcCite).unwrap();
    assert_eq!(third.loc, HASH_MAX - 1);
    assert_eq!(hash.next(second.loc), HASH_MAX - 1);
    assert_eq!(hash.used(), HASH_MAX - 1);
    // one string, three entries
    assert_eq!(pool.str_ptr(), 2);
    assert_eq!(pool.pool_ptr(), 3);
}

#[test]
fn interning_twice_changes_nothing() {
    let mut hash = HashData::new();
    let mut pool = StringPool::new();
    let first = pool.lookup_str_insert(&mut hash, b"twice", StrIlk::BstFn).unwrap();
    let strings = pool.str_ptr();
    let bytes = pool.pool_ptr();
    let used = hash.used();
    let second = pool.lookup_str_insert(&mut hash, b"twice", StrIlk::BstFn).unwrap();
    assert!(second.exists);
    assert_eq!(second.loc, first.loc);
    assert_eq!(pool.str_ptr(), strings);
    assert_eq!(pool.pool_ptr(), bytes);
    assert_eq!(hash.used(), used);
}

#[test]
fn both_tags_stay_lookupable() {
    let mut hash = HashData::new();
    let mut pool = StringPool::new();
    let cite = pool.lookup_str_insert(&mut hash, b"Knuth84", StrIlk::Cite).unwrap();
    let lc = pool.lookup_str_insert(&mut hash, b"Knuth84", StrIlk::LcCite).unwrap();
    assert_ne!(cite.loc, lc.loc);
    let found_cite = pool.lookup_str(&hash, b"Knuth84", StrIlk::Cite);
    let found_lc = pool.lookup_str(&hash, b"Knuth84", StrIlk::LcCite);
    assert!(found_cite.exists && found_lc.exists);
    assert_eq!(found_cite.loc, cite.loc);
    assert_eq!(found_lc.loc, lc.loc);
    assert!(!pool.lookup_str(&hash, b"Knuth84", StrIlk::Text).exists);
    assert!(!pool.lookup_str(&hash, b"knuth84", StrIlk::Cite).exists);
}

#[test]
fn lookup_after_insert_round_trips() {
    let mut hash = HashData::new();
    let mut pool = StringPool::new();
    let names: [&[u8]; 5] = [b"", b"a", b"alpha", b"\\citation", b"a rather longer string"];
    for name in names.iter() {
        let res = pool.lookup_str_insert(&mut hash, name, StrIlk::Text).unwrap();
        let found = pool.lookup_str(&hash, name, StrIlk::Text);
        assert!(found.exists);
        assert_eq!(found.loc, res.loc);
        assert_eq!(pool.get_str(hash.text(found.loc)), *name);
    }
}

#[test]
fn growth_keeps_every_string() {
    let mut hash = HashData::new();
    let mut pool = StringPool::new();
    assert_eq!(pool.size(), POOL_SIZE + 1);
    let mut numbers = Vec::new();
    for i in 0..800u32 {
        let text = format!("{:0>100}", i);
        let res = pool.lookup_str_insert(&mut hash, text.as_bytes(), StrIlk::Text).unwrap();
        assert!(!res.exists);
        numbers.push(hash.text(res.loc));
    }
    assert_eq!(pool.pool_ptr(), 80000);
    assert_eq!(pool.size(), 2 * POOL_SIZE + 1);
    for i in 0..800u32 {
        let text = format!("{:0>100}", i);
        assert_eq!(numbers[i as usize], i as usize + 1);
        assert_eq!(pool.try_get_str(numbers[i as usize]), Ok(text.as_bytes()));
        assert!(pool.lookup_str(&hash, text.as_bytes(), StrIlk::Text).exists);
    }
}

#[test]
fn one_string_may_need_several_steps_of_growth() {
    let mut hash = HashData::new();
    let mut pool = StringPool::new();
    let long = vec![b'x'; 3 * POOL_SIZE];
    let res = pool.lookup_str_insert(&mut hash, &long, StrIlk::Text).unwrap();
    assert_eq!(pool.size(), 3 * POOL_SIZE + 1);
    assert_eq!(pool.get_str(hash.text(res.loc)), &long[..]);
}

#[test]
fn grow_adds_one_step() {
    let mut hash = HashData::new();
    let mut pool = StringPool::new();
    let res = pool.lookup_str_insert(&mut hash, b"kept", StrIlk::Text).unwrap();
    pool.grow();
    assert_eq!(pool.size(), 2 * POOL_SIZE + 1);
    assert_eq!(pool.get_str(hash.text(res.loc)), b"kept");
    assert_eq!(pool.pool_ptr(), 4);
}

#[test]
fn string_numbers_run_out_at_the_boundary() {
    let mut hash = HashData::new();
    let mut pool = StringPool::new();
    let mut last = 0;
    for i in 0..(MAX_STRINGS - 1) {
        let text = format!("s{}", i);
        let res = pool.lookup_str_insert(&mut hash, text.as_bytes(), StrIlk::Text).unwrap();
        last = hash.text(res.loc);
    }
    assert_eq!(last, MAX_STRINGS - 1);
    assert_eq!(pool.str_ptr(), MAX_STRINGS);

    // the boundary: a string that needs a number of its own cannot be had
    assert_eq!(
        pool.lookup_str_insert(&mut hash, b"one too many", StrIlk::Text),
        Err(BibtexError::StringOverflow)
    );
    assert_eq!(pool.str_ptr(), MAX_STRINGS);
    assert!(!pool.lookup_str(&hash, b"one too many", StrIlk::Text).exists);
    assert_eq!(
        pool.lookup_str_insert(&mut hash, b"one too many", StrIlk::Text),
        Err(BibtexError::StringOverflow)
    );

    // what is there is kept, and can still be found
    for i in (0..(MAX_STRINGS - 1)).step_by(997) {
        let text = format!("s{}", i);
        let found = pool.lookup_str(&hash, text.as_bytes(), StrIlk::Text);
        assert!(found.exists);
        assert_eq!(hash.text(found.loc), i + 1);
        assert_eq!(pool.get_str(i + 1), text.as_bytes());
    }
    let again = pool.lookup_str_insert(&mut hash, b"s7", StrIlk::Text).unwrap();
    assert!(again.exists);
    assert_eq!(hash.text(again.loc), 8);

    // numbers past the last string
    assert_eq!(pool.try_get_str(MAX_STRINGS - 1), Ok(format!("s{}", MAX_STRINGS - 2).as_bytes()));
    assert_eq!(pool.try_get_str(MAX_STRINGS), Err(LookupErr::Invalid));
    assert_eq!(pool.try_get_str(MAX_STRINGS + 2), Err(LookupErr::Invalid));
    assert_eq!(pool.try_get_str(MAX_STRINGS + 3), Err(LookupErr::DoesntExist));
}

#[test]
fn a_shared_string_needs_no_number() {
    let mut hash = HashData::new();
    let mut pool = StringPool::new();
    for i in 0..(MAX_STRINGS - 1) {
        let text = format!("s{}", i);
        pool.lookup_str_insert(&mut hash, text.as_bytes(), StrIlk::Text).unwrap();
    }
    assert_eq!(pool.str_ptr(), MAX_STRINGS);
    // every number is taken, but one slot is free: bytes that have a number can take it
    let shared = pool.lookup_str_insert(&mut hash, b"s7", StrIlk::Cite).unwrap();
    assert!(!shared.exists);
    assert_eq!(hash.text(shared.loc), 8);
    assert_eq!(pool.str_ptr(), MAX_STRINGS);
    // now every slot is taken as well
    assert_eq!(
        pool.lookup_str_insert(&mut hash, b"s8", StrIlk::Cite),
        Err(BibtexError::HashOverflow)
    );
    assert_eq!(
        pool.lookup_str_insert(&mut hash, b"new", StrIlk::Text),
        Err(BibtexError::HashOverflow)
    );
}

#[test]
fn slots_run_out_when_every_slot_is_taken() {
    let mut hash = HashData::new();
    let mut pool = StringPool::new();
    let tags = [StrIlk::Text, StrIlk::Cite, StrIlk::LcCite];
    let mut entries = 0;
    let mut failure = None;
    'fill: for tag in tags.iter() {
        for i in 0..20000 {
            let text = format!("k{}", i);
            match pool.lookup_str_insert(&mut hash, text.as_bytes(), *tag) {
                Ok(res) => {
                    assert!(!res.exists);
                    entries += 1;
                }
                Err(e) => {
                    failure = Some(e);
                    break 'fill;
                }
            }
        }
    }
    assert_eq!(failure, Some(BibtexError::HashOverflow));
    assert!(entries <= HASH_SIZE);
    assert_eq!(hash.used(), HASH_BASE);
    // entries made before are still there
    assert!(pool.lookup_str(&hash, b"k0", StrIlk::Text).exists);
    assert!(pool.lookup_str(&hash, b"k19999", StrIlk::Text).exists);
    assert!(pool.lookup_str(&hash, b"k0", StrIlk::Cite).exists);
    // and an entry that is there is still found by an insertion
    assert_eq!(
        pool.lookup_str_insert(&mut hash, b"k0", StrIlk::Text).map(|res| res.exists),
        Ok(true)
    );
}

#[test]
fn numbers_that_name_no_string() {
    let mut hash = HashData::new();
    let mut pool = StringPool::new();
    assert_eq!(pool.try_get_str(0), Err(LookupErr::DoesntExist));
    // nothing interned yet: the next number is 1, and the slack reaches up to 3
    assert_eq!(pool.try_get_str(1), Ok(b"" as &[u8]));
    assert_eq!(pool.try_get_str(STR_SLACK), Ok(b"" as &[u8]));
    assert_eq!(pool.try_get_str(1 + STR_SLACK), Err(LookupErr::DoesntExist));

    pool.lookup_str_insert(&mut hash, b"one", StrIlk::Text).unwrap();
    assert_eq!(pool.try_get_str(1), Ok(b"one" as &[u8]));
    assert_eq!(pool.try_get_str(2), Ok(b"" as &[u8]));
    assert_eq!(pool.try_get_str(4), Ok(b"" as &[u8]));
    assert_eq!(pool.try_get_str(5), Err(LookupErr::DoesntExist));
    assert_eq!(pool.get_str(1), b"one");
}

#[test]
fn str_lookup_slices_the_buffer() {
    let mut hash = HashData::new();
    let mut pool = StringPool::new();
    let buffer = b"\\cite{Knuth84} and more";
    let miss = str_lookup(&mut pool, &mut hash, buffer, 6, 7, StrIlk::Cite, false).unwrap();
    assert!(!miss.exists);
    assert_eq!(pool.str_ptr(), 1);
    let made = str_lookup(&mut pool, &mut hash, buffer, 6, 7, StrIlk::Cite, true).unwrap();
    assert!(!made.exists);
    assert_eq!(pool.get_str(hash.text(made.loc)), b"Knuth84");
    let hit = str_lookup(&mut pool, &mut hash, buffer, 6, 7, StrIlk::Cite, false).unwrap();
    assert!(hit.exists);
    assert_eq!(hit.loc, made.loc);
    assert_eq!(pool.lookup_str(&hash, b"Knuth84", StrIlk::Cite), hit);
}

#[test]
fn reset_empties_the_pool() {
    let mut hash = HashData::new();
    let mut pool = StringPool::new();
    pool.lookup_str_insert(&mut hash, b"gone", StrIlk::Text).unwrap();
    pool.grow();
    reset(&mut pool);
    assert_eq!(pool.str_ptr(), 1);
    assert_eq!(pool.pool_ptr(), 0);
    assert_eq!(pool.size(), POOL_SIZE + 1);
    let hash = HashData::new();
    assert!(!pool.lookup_str(&hash, b"gone", StrIlk::Text).exists);
}

#[test]
fn with_pool_hands_the_pool_to_the_closure() {
    let mut hash = HashData::new();
    let mut pool = StringPool::new();
    let n = with_pool_mut(&mut pool, |pool| {
        let res = pool.lookup_str_insert(&mut hash, b"inside", StrIlk::Text).unwrap();
        hash.text(res.loc)
    });
    assert_eq!(n, 1);
    let len = with_pool(&pool, |pool| pool.get_str(n).len());
    assert_eq!(len, 6);
}

#[test]
fn errors_name_what_ran_out() {
    assert_eq!(BibtexError::StringOverflow.resource(), "number of strings");
    assert_eq!(BibtexError::StringOverflow.limit(), 35307);
    assert_eq!(BibtexError::HashOverflow.resource(), "hash size");
    assert_eq!(BibtexError::HashOverflow.limit(), 35307);
}

#[test]
fn the_modulus_is_the_least_prime_from_seventeen_twentieths_of_the_size() {
    fn is_prime(n: usize) -> bool {
        n >= 2 && (2..n).take_while(|d| d * d <= n).all(|d| n % d != 0)
    }
    let want = HASH_SIZE / 20 * 17;
    assert_eq!(want, 30005);
    let least = (want..).find(|n| is_prime(*n)).unwrap();
    assert_eq!(least, HASH_PRIME);
    assert!(HASH_BASE + HASH_PRIME - 1 <= HASH_MAX);
}

#[test]
fn strings_are_compared_by_their_bytes() {
    let mut hash = HashData::new();
    let mut pool = StringPool::new();
    let a = pool.lookup_str_insert(&mut hash, b"same", StrIlk::Text).unwrap();
    let b = pool.lookup_str_insert(&mut hash, b"same", StrIlk::Cite).unwrap();
    let c = pool.lookup_str_insert(&mut hash, b"other", StrIlk::Text).unwrap();
    let (a, b, c) = (hash.text(a.loc), hash.text(b.loc), hash.text(c.loc));
    assert!(pool.str_eq_str(a, a));
    assert!(pool.str_eq_str(a, b));
    assert!(!pool.str_eq_str(a, c));
    // strings that are not made yet are empty, and so are the same
    assert!(pool.str_eq_str(3, 4));
    assert!(!pool.str_eq_str(3, a));
}
