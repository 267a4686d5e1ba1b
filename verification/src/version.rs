//! Picking the newest installed game version.
//!
//! The game ships one directory per build, named `Base` followed by the
//! build number.  Given the entry names of the versions directory, this
//! finds the highest build number.  Reading the directory itself is left
//! to the caller; only the selection logic lives here.

use vstd::prelude::*;
use vstd::utf8::is_ascii_chars;

verus! {

/// A decimal digit.
pub open spec fn digit(c: char) -> bool {
    '0' <= c && c <= '9'
}

/// The value of a sequence of decimal digits, most significant first.
pub open spec fn dec_val(s: Seq<char>) -> int
    decreases s.len(),
{
    if s.len() == 0 {
        0
    } else {
        dec_val(s.drop_last()) * 10 + (s.last() as int - 48)
    }
}

/// The build number a directory entry carries: the name must be `Base`
/// followed by at least one decimal digit, and the number must fit the
/// game's version type.  Any other name carries none.
pub open spec fn base_name_version(s: Seq<char>) -> Option<int> {
    if s.len() > 4 && s[0] == 'B' && s[1] == 'a' && s[2] == 's' && s[3] == 'e' && (forall|i: int|
        4 <= i < s.len() ==> digit(#[trigger] s[i])) && dec_val(
        s.subrange(4, s.len() as int),
    ) <= u32::MAX {
        Some(dec_val(s.subrange(4, s.len() as int)))
    } else {
        None
    }
}

/// Parse the build number out of one directory entry name.
fn parse_base_name(name: &str) -> (r: Option<u32>)
    ensures
        match r {
            Option::Some(v) => base_name_version(name@) == Some(v as int),
            Option::None => base_name_version(name@).is_none(),
        },
{
    broadcast use vstd::string::is_ascii_spec_bytes;

    if !name.is_ascii() {
        proof {
            if base_name_version(name@).is_some() {
                assert forall|i: int| 0 <= i < name@.len() implies '\0' <= #[trigger] name@[i]
                    <= '\u{7f}' by {
                    if i < 4 {
                    } else {
                        assert(digit(name@[i]));
                    }
                }
            }
        }
        return None;
    }
    let bytes = name.as_bytes();
    proof {
        assert(bytes@.len() == name@.len());
    }
    if bytes.len() <= 4 {
        return None;
    }
    if !(bytes[0] == 66 && bytes[1] == 97 && bytes[2] == 115 && bytes[3] == 101) {
        return None;
    }
    let mut value: u64 = 0;
    let mut i: usize = 4;
    while i < bytes.len()
        invariant
            4 <= i <= bytes@.len(),
            4 < bytes@.len(),
            is_ascii_chars(name@),
            bytes@ =~= Seq::new(name@.len(), |k: int| name@[k] as u8),
            forall|k: int| 4 <= k < i ==> digit(#[trigger] name@[k]),
            value as int == dec_val(name@.subrange(4, i as int)),
            value <= u32::MAX,
        decreases bytes@.len() - i,
    {
        let b = bytes[i];
        if b < 48 || b > 57 {
            proof {
                assert(!digit(name@[i as int]));
            }
            return None;
        }
        let next = value * 10 + ((b - 48) as u64);
        if next > u32::MAX as u64 {
            proof {
                if base_name_version(name@).is_some() {
                    let full = name@.subrange(4, name@.len() as int);
                    assert(name@.subrange(4, (i + 1) as int).drop_last() =~= name@.subrange(
                        4,
                        i as int,
                    ));
                    assert(name@.subrange(4, (i + 1) as int).last() == name@[i as int]);
                    assert((b as int) == (name@[i as int] as int));
                    assert(dec_val(name@.subrange(4, (i + 1) as int)) == next);
                    lemma_dec_val_prefix_le(name@, i + 1);
                    assert(dec_val(full) <= u32::MAX);
                }
            }
            return None;
        }
        proof {
            assert(name@.subrange(4, (i + 1) as int).drop_last() =~= name@.subrange(4, i as int));
            assert(name@.subrange(4, (i + 1) as int).last() == name@[i as int]);
            assert((b as int) == (name@[i as int] as int));
        }
        value = next;
        i = i + 1;
    }
    proof {
        assert(name@.subrange(4, name@.len() as int) =~= name@.subrange(
            4,
            bytes@.len() as int,
        ));
        assert(base_name_version(name@) == Some(value as int));
    }
    Some(value as u32)
}

/// A longer all-digit suffix never has a smaller value: the value of the
/// digits seen so far is a lower bound for the whole suffix's value.
proof fn lemma_dec_val_prefix_le(s: Seq<char>, i: int)
    requires
        4 <= i <= s.len(),
        forall|k: int| 4 <= k < s.len() ==> digit(#[trigger] s[k]),
    ensures
        dec_val(s.subrange(4, i)) <= dec_val(s.subrange(4, s.len() as int)),
        dec_val(s.subrange(4, i)) >= 0,
    decreases s.len() - i,
{
    if i == s.len() {
        lemma_dec_val_nonneg(s.subrange(4, i));
    } else {
        lemma_dec_val_prefix_le(s, i + 1);
        lemma_dec_val_nonneg(s.subrange(4, i));
        assert(s.subrange(4, i + 1).drop_last() =~= s.subrange(4, i));
        assert(s.subrange(4, i + 1).last() == s[i]);
        assert(digit(s[i]));
    }
}

/// Digit sequences have non-negative values.
proof fn lemma_dec_val_nonneg(s: Seq<char>)
    requires
        forall|k: int| 0 <= k < s.len() ==> digit(#[trigger] s[k]),
    ensures
        dec_val(s) >= 0,
    decreases s.len(),
{
    if s.len() > 0 {
        assert(digit(s.last()));
        lemma_dec_val_nonneg(s.drop_last());
    }
}

/// The highest build number among the given directory entry names, or
/// `None` when no entry carries one.  Entries that are not `Base` plus a
/// number are ignored.
pub fn get_latest_base_version(names: &Vec<String>) -> (r: Option<u32>)
    ensures
        r.is_none() ==> forall|i: int|
            0 <= i < names@.len() ==> base_name_version((#[trigger] names@[i])@).is_none(),
        r.is_some() ==> exists|i: int|
            0 <= i < names@.len() && base_name_version((#[trigger] names@[i])@) == Some(
                r.unwrap() as int,
            ),
        r.is_some() ==> forall|i: int|
            0 <= i < names@.len() ==> match base_name_version((#[trigger] names@[i])@) {
                Option::Some(v) => v <= r.unwrap() as int,
                Option::None => true,
            },
{
    let mut best: Option<u32> = None;
    let mut i: usize = 0;
    while i < names.len()
        invariant
            0 <= i <= names@.len(),
            best.is_none() ==> forall|k: int|
                0 <= k < i ==> base_name_version((#[trigger] names@[k])@).is_none(),
            best.is_some() ==> exists|k: int|
                0 <= k < i && base_name_version((#[trigger] names@[k])@) == Some(
                    best.unwrap() as int,
                ),
            best.is_some() ==> forall|k: int|
                0 <= k < i ==> match base_name_version((#[trigger] names@[k])@) {
                    Option::Some(v) => v <= best.unwrap() as int,
                    Option::None => true,
                },
        decreases names@.len() - i,
    {
        let parsed = parse_base_name(names[i].as_str());
        match (parsed, best) {
            (Some(v), None) => {
                best = Some(v);
            },
            (Some(v), Some(b)) => {
                if v > b {
                    best = Some(v);
                }
            },
            _ => {},
        }
        i = i + 1;
    }
    best
}

} // verus!
