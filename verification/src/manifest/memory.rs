//! Memory sizes, as a manifest writes them.
use crate::text;
use std::str::FromStr;
use vstd::prelude::*;

verus! {

/// A size in bytes, written the way a manifest writes it: `8G`, `512M`,
/// `1024K`, or a bare number of bytes. Read as the manifest loads, so a typo
/// is an error naming the file rather than a session quietly given some other
/// size.
#[derive(Clone, Copy, Debug, PartialEq, Eq, Structural)]
pub struct Memory {
    pub size: u64,
}

pub const GIBIBYTE: u64 = 0x4000_0000;

pub const MEBIBYTE: u64 = 0x10_0000;

pub const KIBIBYTE: u64 = 0x400;

/// How many bytes a unit stands for, in either case.
pub open spec fn scale_of(unit: char) -> Option<nat> {
    if unit == 'G' || unit == 'g' {
        Some(GIBIBYTE as nat)
    } else if unit == 'M' || unit == 'm' {
        Some(MEBIBYTE as nat)
    } else if unit == 'K' || unit == 'k' {
        Some(KIBIBYTE as nat)
    } else {
        None
    }
}

/// Whether a character is an ASCII letter.
pub open spec fn is_letter(c: char) -> bool {
    'a' <= c <= 'z' || 'A' <= c <= 'Z'
}

/// What digits read as, times a scale: a number of bytes greater than zero.
pub open spec fn scaled(digits: Seq<char>, scale: nat) -> Option<u64> {
    match text::read_number(text::trim(digits), u64::MAX as nat) {
        Some(count) => if 0 < count * scale <= u64::MAX {
            Some((count * scale) as u64)
        } else {
            None
        },
        None => None,
    }
}

/// How many bytes a text stands for: a number, which a unit may follow.
pub open spec fn read_memory(s: Seq<char>) -> Option<u64> {
    let kept = text::trim(s);
    if kept.len() > 0 && is_letter(kept.last()) {
        match scale_of(kept.last()) {
            Some(scale) => scaled(kept.drop_last(), scale),
            None => None,
        }
    } else {
        scaled(kept, 1)
    }
}

/// A number of bytes in the largest unit that divides it exactly.
pub open spec fn shown_memory(size: nat) -> Seq<char> {
    if size % (GIBIBYTE as nat) == 0 {
        text::decimal(size / (GIBIBYTE as nat)) + "G"@
    } else if size % (MEBIBYTE as nat) == 0 {
        text::decimal(size / (MEBIBYTE as nat)) + "M"@
    } else if size % (KIBIBYTE as nat) == 0 {
        text::decimal(size / (KIBIBYTE as nat)) + "K"@
    } else {
        text::decimal(size)
    }
}

/// The sentence that refuses a text as a memory size.
pub open spec fn not_a_size(s: Seq<char>) -> Seq<char> {
    "\""@ + s
        + "\" is not a memory size: expected a number, optionally followed by G, M, or K"@
}

fn refuse(s: &str) -> (r: String)
    ensures
        r@ == not_a_size(s@),
{
    let mut out = "\"".to_string();
    out.append(s);
    out.append("\" is not a memory size: expected a number, optionally followed by G, M, or K");
    out
}

/// What digits read as, times a scale.
fn scale_digits(digits: &str, scale: u64) -> (r: Option<Memory>)
    requires
        scale > 0,
    ensures
        match r {
            Some(memory) => scaled(digits@, scale as nat) == Some(memory.size),
            None => scaled(digits@, scale as nat) is None,
        },
{
    let trimmed = text::trimmed(digits);
    match text::read_u64(trimmed.as_str()) {
        Some(count) => {
            match count.checked_mul(scale) {
                Some(size) => {
                    if size > 0 {
                        Some(Memory { size })
                    } else {
                        None
                    }
                },
                None => None,
            }
        },
        None => None,
    }
}

impl Memory {
    /// That many gibibytes. Bits past the size of a `u64` are lost.
    pub fn gibibytes(count: u64) -> (r: Self)
        ensures
            r.size == (count * GIBIBYTE) % 0x1_0000_0000_0000_0000,
            count < 0x4_0000_0000 ==> r.size == count * GIBIBYTE,
    {
        assert((count << 30u64) == (count * 0x4000_0000u64) % 0x1_0000_0000_0000_0000)
            by (bit_vector);
        Memory { size: count << 30u64 }
    }

    pub fn bytes(self) -> (r: u64)
        ensures
            r == self.size,
    {
        self.size
    }

    /// Reads a size.
    pub fn read(s: &str) -> (r: Result<Self, String>)
        ensures
            match r {
                Ok(memory) => read_memory(s@) == Some(memory.size),
                Err(message) => read_memory(s@) is None && message@ == not_a_size(s@),
            },
    {
        let kept = text::trimmed(s);
        let n: usize = kept.as_str().unicode_len();
        let mut outcome: Option<Memory> = None;
        if n > 0 {
            let unit = kept.as_str().get_char(n - 1);
            let digits = kept.as_str().substring_char(0, n - 1);
            assert(digits@ =~= kept@.drop_last());
            if ('a' <= unit && unit <= 'z') || ('A' <= unit && unit <= 'Z') {
                if unit == 'G' || unit == 'g' {
                    outcome = scale_digits(digits, GIBIBYTE);
                } else if unit == 'M' || unit == 'm' {
                    outcome = scale_digits(digits, MEBIBYTE);
                } else if unit == 'K' || unit == 'k' {
                    outcome = scale_digits(digits, KIBIBYTE);
                }
            } else {
                outcome = scale_digits(kept.as_str(), 1);
            }
        } else {
            outcome = scale_digits(kept.as_str(), 1);
        }
        match outcome {
            Some(memory) => Ok(memory),
            None => Err(refuse(s)),
        }
    }

    /// The size in the largest unit that divides it exactly, so `8G` is written
    /// back as it was read.
    pub fn to_string(&self) -> (r: String)
        ensures
            r@ == shown_memory(self.size as nat),
    {
        if self.size % GIBIBYTE == 0 {
            let mut out = text::decimal_text((self.size / GIBIBYTE) as u128);
            out.append("G");
            out
        } else if self.size % MEBIBYTE == 0 {
            let mut out = text::decimal_text((self.size / MEBIBYTE) as u128);
            out.append("M");
            out
        } else if self.size % KIBIBYTE == 0 {
            let mut out = text::decimal_text((self.size / KIBIBYTE) as u128);
            out.append("K");
            out
        } else {
            text::decimal_text(self.size as u128)
        }
    }
}

impl FromStr for Memory {
    type Err = String;

    fn from_str(s: &str) -> (r: Result<Self, String>)
        ensures
            match r {
                Ok(memory) => read_memory(s@) == Some(memory.size),
                Err(message) => read_memory(s@) is None && message@ == not_a_size(s@),
            },
    {
        Memory::read(s)
    }
}

proof fn lemma_reads_back(count: nat, unit: Seq<char>, scale: nat)
    requires
        unit.len() == 1,
        is_letter(unit[0]),
        scale_of(unit[0]) == Some(scale),
        0 < count * scale <= u64::MAX,
        count <= u64::MAX,
    ensures
        read_memory(text::decimal(count) + unit) == Some((count * scale) as u64),
{
    let digits = text::decimal(count);
    let whole = digits + unit;
    text::lemma_decimal(count);
    assert(text::is_digit(digits[0]));
    assert(text::is_digit(digits[digits.len() - 1]));
    assert(whole[0] == digits[0]);
    text::lemma_trim_plain(whole);
    assert(whole.last() == unit[0]);
    assert(whole.drop_last() =~= digits);
    text::lemma_trim_plain(digits);
}

/// Every size greater than zero reads back from how it is written.
pub proof fn law_memory_reads_back_as_written(memory: Memory)
    requires
        memory.size > 0,
    ensures
        read_memory(shown_memory(memory.size as nat)) == Some(memory.size),
{
    let size = memory.size as nat;
    reveal_strlit("G");
    reveal_strlit("M");
    reveal_strlit("K");
    if size % (GIBIBYTE as nat) == 0 {
        lemma_reads_back(size / (GIBIBYTE as nat), "G"@, GIBIBYTE as nat);
    } else if size % (MEBIBYTE as nat) == 0 {
        lemma_reads_back(size / (MEBIBYTE as nat), "M"@, MEBIBYTE as nat);
    } else if size % (KIBIBYTE as nat) == 0 {
        lemma_reads_back(size / (KIBIBYTE as nat), "K"@, KIBIBYTE as nat);
    } else {
        let digits = text::decimal(size);
        text::lemma_decimal(size);
        assert(text::is_digit(digits[0]));
        assert(text::is_digit(digits[digits.len() - 1]));
        text::lemma_trim_plain(digits);
    }
}

/// A number and a unit read as so many of that unit, gibibytes, mebibytes or
/// kibibytes, in either case of its letter; a number alone reads as bytes. No bytes
/// at all, or more than a `u64` counts, is no size; nor is a number before any other
/// letter.
pub proof fn law_sizes_are_counted_in_binary_units(count: nat, unit: char)
    requires
        is_letter(unit),
    ensures
        ({
            let one: nat = if unit == 'G' || unit == 'g' {
                1073741824
            } else if unit == 'M' || unit == 'm' {
                1048576
            } else if unit == 'K' || unit == 'k' {
                1024
            } else {
                0
            };
            read_memory(text::decimal(count).push(unit)) == (if 0 < count * one
                <= 18446744073709551615 {
                Some((count * one) as u64)
            } else {
                None
            })
        }),
        read_memory(text::decimal(count)) == (if 0 < count <= 18446744073709551615 {
            Some(count as u64)
        } else {
            None
        }),
{
    let digits = text::decimal(count);
    let whole = digits.push(unit);
    text::lemma_decimal(count);
    assert(text::is_digit(digits[0]));
    assert(text::is_digit(digits[digits.len() - 1]));
    assert(whole[0] == digits[0]);
    text::lemma_trim_plain(whole);
    assert(whole.last() == unit);
    assert(whole.drop_last() =~= digits);
    text::lemma_trim_plain(digits);
    if let Some(scale) = scale_of(unit) {
        assert(count > u64::MAX ==> count * scale > u64::MAX) by (nonlinear_arith)
            requires
                scale >= 1,
        ;
    } else {
        assert(count * 0 == 0) by (nonlinear_arith);
    }
}

/// A size is written in the largest unit that measures it exactly.
pub proof fn law_sizes_are_written_in_the_largest_unit(size: nat)
    ensures
        ({
            let shown = shown_memory(size);
            &&& shown.last() == 'G' <==> size % 1073741824 == 0
            &&& shown.last() == 'M' <==> size % 1073741824 != 0 && size % 1048576 == 0
            &&& shown.last() == 'K' <==> size % 1048576 != 0 && size % 1024 == 0
            &&& text::is_digit(shown.last()) <==> size % 1024 != 0
        }),
{
    reveal_strlit("G");
    reveal_strlit("M");
    reveal_strlit("K");
    text::lemma_decimal(size);
    let digits = text::decimal(size);
    assert(text::is_digit(digits[digits.len() - 1]));
}

} // verus!
