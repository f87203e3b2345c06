//! Reading numbers and names out of the bytes of a file.

use vstd::prelude::*;
use vstd::string::*;
use crate::audio_processing::text::{chars_of, copy_range, to_string};
use crate::file_parsing::decode_helpers::{DecodeError, DecodeFault, DecodeResult};

verus! {

/// The number that the `n` bytes of `b` from `at` on write, least
/// significant byte first.
pub open spec fn le_value(b: Seq<u8>, at: int, n: int) -> nat
    decreases n,
{
    if n <= 0 {
        0
    } else {
        b[at] as nat + 256 * le_value(b, at + 1, n - 1)
    }
}

/// The number that the `n` bytes of `b` from `at` on write, most significant
/// byte first.
pub open spec fn be_value(b: Seq<u8>, at: int, n: int) -> nat
    decreases n,
{
    if n <= 0 {
        0
    } else {
        be_value(b, at, n - 1) * 256 + b[at + n - 1] as nat
    }
}

/// 256 to the power `n`.
pub open spec fn pow256(n: int) -> nat
    decreases n,
{
    if n <= 0 {
        1
    } else {
        256 * pow256(n - 1)
    }
}

/// The powers of 256 up to the eighth.
pub proof fn lemma_pow256(n: int)
    requires
        0 <= n <= 8,
    ensures
        pow256(n) <= 0x1_0000_0000_0000_0000,
        n <= 7 ==> pow256(n) <= 0x100_0000_0000_0000,
        n <= 4 ==> pow256(n) <= 0x1_0000_0000,
        n <= 2 ==> pow256(n) <= 0x1_0000,
        pow256(n) >= 1,
{
    reveal_with_fuel(pow256, 10);
}

/// A number of `n` bytes is below the `n`-th power of 256.
pub proof fn lemma_be_bound(b: Seq<u8>, at: int, n: int)
    requires
        0 <= n,
    ensures
        be_value(b, at, n) < pow256(n),
    decreases n,
{
    if n > 0 {
        lemma_be_bound(b, at, n - 1);
    }
}

/// A number of `n` bytes is below the `n`-th power of 256.
pub proof fn lemma_le_bound(b: Seq<u8>, at: int, n: int)
    requires
        0 <= n,
    ensures
        le_value(b, at, n) < pow256(n),
    decreases n,
{
    if n > 0 {
        lemma_le_bound(b, at + 1, n - 1);
    }
}

/// The first `k` bytes of a little-endian number are its value below the
/// `k`-th power of 256.
pub proof fn lemma_le_step(b: Seq<u8>, at: int, k: int)
    requires
        0 <= k,
    ensures
        le_value(b, at, k + 1) == le_value(b, at, k) + b[at + k] as nat * pow256(k),
    decreases k,
{
    if k > 0 {
        lemma_le_step(b, at + 1, k - 1);
        assert(le_value(b, at, k + 1) == b[at] as nat + 256 * le_value(b, at + 1, k));
        assert(le_value(b, at + 1, k) == le_value(b, at + 1, k - 1) + b[at + k] as nat * pow256(
            k - 1,
        ));
        assert(256 * (b[at + k] as nat * pow256(k - 1)) == b[at + k] as nat * pow256(k))
            by (nonlinear_arith)
            requires
                pow256(k) == 256 * pow256(k - 1),
        ;
        assert(256 * (le_value(b, at + 1, k - 1) + b[at + k] as nat * pow256(k - 1)) == 256
            * le_value(b, at + 1, k - 1) + 256 * (b[at + k] as nat * pow256(k - 1)))
            by (nonlinear_arith);
    } else {
        assert(le_value(b, at, 1) == b[at] as nat + 256 * le_value(b, at + 1, 0));
        assert(pow256(0) == 1);
    }
}

/// Reads a number of `num` bytes at `*at`, least significant byte first if
/// `le` and most significant byte first if not, and moves `*at` behind it.
/// Where the bytes end before the number does, `*at` stays.
pub fn parse_bytes(bytes: &Vec<u8>, at: &mut usize, num: usize, le: bool) -> (r: DecodeResult<u64>)
    requires
        num <= 8,
    ensures
        *old(at) + num <= bytes.len() ==> r == Ok::<u64, DecodeError>(
            (if le {
                le_value(bytes@, *old(at) as int, num as int)
            } else {
                be_value(bytes@, *old(at) as int, num as int)
            }) as u64,
        ) && *final(at) == *old(at) + num,
        *old(at) + num > bytes.len() ==> r == Err::<u64, DecodeError>(DecodeError::UnexpectedEof)
            && *final(at) == *old(at),
{
    let start = *at;
    if start > bytes.len() || num > bytes.len() - start {
        return Err(DecodeError::UnexpectedEof);
    }
    let mut value: u64 = 0;
    let mut scale: u64 = 1;
    let mut i: usize = 0;
    while i < num
        invariant
            i <= num <= 8,
            start + num <= bytes.len(),
            le ==> value == le_value(bytes@, start as int, i as int),
            !le ==> value == be_value(bytes@, start as int, i as int),
            i < 8 ==> scale == pow256(i as int),
        decreases num - i,
    {
        let b = bytes[start + i] as u64;
        proof {
            lemma_pow256(i as int);
            lemma_pow256(i + 1);
            lemma_le_bound(bytes@, start as int, i as int);
            lemma_be_bound(bytes@, start as int, i as int);
            lemma_le_bound(bytes@, start as int, i + 1);
            lemma_be_bound(bytes@, start as int, i + 1);
            lemma_le_step(bytes@, start as int, i as int);
        }
        if le {
            assert(b * scale == b as nat * pow256(i as int));
            assert(b * scale <= le_value(bytes@, start as int, i + 1));
            value = value + b * scale;
        } else {
            value = value * 256 + b;
        }
        if i < 7 {
            scale = scale * 256;
        }
        i += 1;
    }
    *at = start + num;
    Ok(value)
}

/// Index of the last `d` in `s`, or -1 where there is none.
pub open spec fn last_index(s: Seq<char>, d: char) -> int
    decreases s.len(),
{
    if s.len() == 0 {
        -1
    } else if s.last() == d {
        s.len() - 1
    } else {
        last_index(s.drop_last(), d)
    }
}

/// A `d` with none behind it, or -1 for a text that has none, is what
/// `last_index` finds.
pub proof fn lemma_last_index(s: Seq<char>, d: char, n: int)
    requires
        -1 <= n < s.len(),
        forall|j: int| n < j < s.len() ==> s[j] != d,
        n >= 0 ==> s[n] == d,
    ensures
        last_index(s, d) == n,
    decreases s.len(),
{
    if s.len() == 0 || s.last() == d {
    } else {
        lemma_last_index(s.drop_last(), d, n);
    }
}

/// Why a path gives no name: it has no stem or no extension, or no
/// directory.
#[derive(Debug, Clone, Copy, PartialEq, Eq)]
pub enum NameError {
    NoName,
    NotNested,
}

/// The name of the file at `path`: what stands between the last `/` before
/// the extension and the last `.`. The path has to have something on both
/// sides of its last `.`, and a `/` before it.
pub open spec fn spec_file_name(path: Seq<char>) -> Result<Seq<char>, NameError> {
    let dot = last_index(path, '.');
    if dot <= 0 || dot + 1 >= path.len() {
        Err(NameError::NoName)
    } else {
        let stem = path.take(dot);
        let slash = last_index(stem, '/');
        if slash < 0 {
            Err(NameError::NotNested)
        } else {
            Ok(stem.skip(slash + 1))
        }
    }
}

/// Index of the last `d` before `end`.
fn find_last(s: &Vec<char>, end: usize, d: char) -> (r: Option<usize>)
    requires
        end <= s.len(),
    ensures
        match r {
            Some(i) => last_index(s@.take(end as int), d) == i && i < end,
            None => last_index(s@.take(end as int), d) == -1,
        },
{
    let mut i: usize = end;
    while i > 0
        invariant
            i <= end <= s.len(),
            forall|j: int| i <= j < end ==> s@[j] != d,
        decreases i,
    {
        if s[i - 1] == d {
            proof {
                lemma_last_index(s@.take(end as int), d, i - 1);
            }
            return Some(i - 1);
        }
        i -= 1;
    }
    proof {
        lemma_last_index(s@.take(end as int), d, -1);
    }
    None
}

/// The name of the file at `path`.
pub fn file_name(path: &str) -> (r: Result<String, NameError>)
    ensures
        match r {
            Ok(name) => spec_file_name(path@) == Ok::<Seq<char>, NameError>(name@),
            Err(e) => spec_file_name(path@) == Err::<Seq<char>, NameError>(e),
        },
{
    let chars = chars_of(path);
    assert(chars@.take(chars.len() as int) =~= chars@);
    let dot = match find_last(&chars, chars.len(), '.') {
        Some(dot) => dot,
        None => {
            return Err(NameError::NoName);
        },
    };
    if dot == 0 || dot + 1 >= chars.len() {
        return Err(NameError::NoName);
    }
    let slash = match find_last(&chars, dot, '/') {
        Some(slash) => slash,
        None => {
            return Err(NameError::NotNested);
        },
    };
    let name = copy_range(&chars, slash + 1, dot);
    assert(name@ =~= chars@.take(dot as int).skip(slash + 1));
    Ok(to_string(&name))
}

/// The error that a path without a name gives.
pub open spec fn spec_name_error(e: NameError) -> DecodeFault {
    match e {
        NameError::NoName => DecodeFault::InvalidData("File has no name"@),
        NameError::NotNested => DecodeFault::InvalidData("File is not nested"@),
    }
}

/// The error that a path without a name gives.
pub fn name_error(e: NameError) -> (r: DecodeError)
    ensures
        r@ == spec_name_error(e),
{
    match e {
        NameError::NoName => DecodeError::InvalidData(String::from_str("File has no name")),
        NameError::NotNested => DecodeError::InvalidData(String::from_str("File is not nested")),
    }
}

} // verus!
