//! Text of a command line: characters, splitting, and numbers.
//!
//! A line is held as a vector of characters whose view is a `Seq<char>`.
//! Each function here has a spec function beside it that says, over
//! sequences, what it returns.

use vstd::prelude::*;
use crate::audio_processing::fixed::Fixed;

verus! {

/// `String::push`, which appends one character to a string: after the call
/// the string holds the characters that it held before, followed by `ch`.
/// This is taken from the documentation of the standard library and not
/// proved here.
pub assume_specification[ String::push ](s: &mut String, ch: char)
    ensures
        final(s)@ == old(s)@.push(ch),
;

/// The views of a sequence of character vectors.
pub open spec fn lines(v: Seq<Vec<char>>) -> Seq<Seq<char>> {
    Seq::new(v.len(), |i: int| v[i]@)
}

/// Index of the first `d` in `s`, or the length of `s` where there is none.
pub open spec fn first_index(s: Seq<char>, d: char) -> nat
    decreases s.len(),
{
    if s.len() == 0 || s[0] == d {
        0
    } else {
        1 + first_index(s.skip(1), d)
    }
}

/// The pieces of `s` between occurrences of `d`; never empty, and a piece
/// may be empty.
pub open spec fn spec_split(s: Seq<char>, d: char) -> Seq<Seq<char>>
    decreases s.len(),
{
    let i = first_index(s, d);
    if i >= s.len() {
        seq![s]
    } else {
        seq![s.take(i as int)] + spec_split(s.skip(i as int + 1), d)
    }
}

/// The characters that separate words: the white space of Unicode, which
/// is tab to carriage return, the blank, next line, the no-break blank, the
/// Ogham space mark, the blanks from en quad to hair space, the line and
/// paragraph separators, the narrow no-break blank, the medium mathematical
/// blank and the ideographic blank.
pub open spec fn is_space(c: char) -> bool {
    ||| '\u{9}' <= c <= '\u{D}'
    ||| c == ' '
    ||| c == '\u{85}'
    ||| c == '\u{A0}'
    ||| c == '\u{1680}'
    ||| '\u{2000}' <= c <= '\u{200A}'
    ||| c == '\u{2028}'
    ||| c == '\u{2029}'
    ||| c == '\u{202F}'
    ||| c == '\u{205F}'
    ||| c == '\u{3000}'
}

/// Length of the longest prefix of `s` whose characters all are spaces
/// (`space`) or all are not (`!space`).
pub open spec fn run_len(s: Seq<char>, space: bool) -> nat
    decreases s.len(),
{
    if s.len() == 0 || is_space(s[0]) != space {
        0
    } else {
        1 + run_len(s.skip(1), space)
    }
}

/// The words of `s`: its maximal runs of characters that are not spaces.
pub open spec fn spec_words(s: Seq<char>) -> Seq<Seq<char>>
    decreases s.len(),
{
    let a = run_len(s, true);
    let rest = s.skip(a as int);
    let b = run_len(rest, false);
    if b == 0 || a > s.len() || b > rest.len() {
        Seq::empty()
    } else {
        seq![rest.take(b as int)] + spec_words(rest.skip(b as int))
    }
}

/// The decimal digits.
pub open spec fn is_digit(c: char) -> bool {
    '0' <= c <= '9'
}

/// The number that a digit stands for.
pub open spec fn digit_val(c: char) -> nat {
    (c as int - '0' as int) as nat
}

/// Whether `s` holds digits only.
pub open spec fn all_digits(s: Seq<char>) -> bool {
    forall|i: int| 0 <= i < s.len() ==> is_digit(#[trigger] s[i])
}

/// The number that a sequence of decimal digits writes.
pub open spec fn digits_val(s: Seq<char>) -> nat
    decreases s.len(),
{
    if s.len() == 0 {
        0
    } else {
        digits_val(s.drop_last()) * 10 + digit_val(s.last())
    }
}

/// Ten to the power `n`.
pub open spec fn pow10(n: nat) -> nat
    decreases n,
{
    if n == 0 {
        1
    } else {
        10 * pow10((n - 1) as nat)
    }
}

/// `s` without a leading `+`.
pub open spec fn strip_plus(s: Seq<char>) -> Seq<char> {
    if s.len() > 0 && s[0] == '+' {
        s.skip(1)
    } else {
        s
    }
}

/// The unsigned integer that `s` writes: decimal digits, at least one, after
/// an optional `+`; `None` for any other text and for a number above
/// `usize::MAX`.
pub open spec fn spec_parse_usize(s: Seq<char>) -> Option<usize> {
    let body = strip_plus(s);
    if body.len() == 0 || !all_digits(body) || digits_val(body) > usize::MAX {
        None
    } else {
        Some(digits_val(body) as usize)
    }
}

/// Whether `s` starts with a sign.
pub open spec fn has_sign(s: Seq<char>) -> bool {
    s.len() > 0 && (s[0] == '-' || s[0] == '+')
}

/// The digits of `s` before its first `.`, after the sign.
pub open spec fn whole_digits(s: Seq<char>) -> Seq<char> {
    let body = if has_sign(s) { s.skip(1) } else { s };
    body.take(first_index(body, '.') as int)
}

/// The digits of `s` after its first `.`; empty where there is none.
pub open spec fn frac_digits(s: Seq<char>) -> Seq<char> {
    let body = if has_sign(s) { s.skip(1) } else { s };
    let dot = first_index(body, '.');
    if dot < body.len() {
        body.skip(dot as int + 1)
    } else {
        Seq::empty()
    }
}

/// Raw value of the fraction that the digits after the point write, rounded
/// down. Digits after the ninth do not count.
pub open spec fn frac_raw(f: Seq<char>) -> nat {
    let used = if f.len() > 9 { f.take(9) } else { f };
    digits_val(used) * 65536 / pow10(used.len())
}

/// The fixed-point number that `s` writes: an optional sign, decimal digits,
/// and optionally a point and more digits, with a digit on at least one side
/// of the point. The fraction is rounded toward zero to a multiple of
/// 1/65536. `None` for any other text and where the whole part is above
/// 2^47 - 1.
pub open spec fn spec_parse_fixed(s: Seq<char>) -> Option<Fixed> {
    let w = whole_digits(s);
    let f = frac_digits(s);
    if w.len() + f.len() == 0 || !all_digits(w) || !all_digits(f) || digits_val(w)
        > 0x7fff_ffff_ffff {
        None
    } else {
        let mag = digits_val(w) * 65536 + frac_raw(f);
        if s[0] == '-' {
            Some(Fixed { raw: (-mag) as i64 })
        } else {
            Some(Fixed { raw: mag as i64 })
        }
    }
}

/// A `d` with none before it, or the end of a text that has none, is what
/// `first_index` finds.
pub proof fn lemma_first_index(s: Seq<char>, d: char, n: int)
    requires
        0 <= n <= s.len(),
        forall|j: int| 0 <= j < n ==> s[j] != d,
        n == s.len() || s[n] == d,
    ensures
        first_index(s, d) == n,
    decreases s.len(),
{
    if s.len() == 0 || s[0] == d {
    } else {
        lemma_first_index(s.skip(1), d, n - 1);
    }
}

/// A run ends where `run_len` says.
pub proof fn lemma_run_len(s: Seq<char>, space: bool, n: int)
    requires
        0 <= n <= s.len(),
        forall|j: int| 0 <= j < n ==> is_space(s[j]) == space,
        n == s.len() || is_space(s[n]) != space,
    ensures
        run_len(s, space) == n,
    decreases s.len(),
{
    if s.len() == 0 || is_space(s[0]) != space {
    } else {
        lemma_run_len(s.skip(1), space, n - 1);
    }
}

/// A number does not shrink when digits are written after it.
pub proof fn lemma_digits_val_mono(s: Seq<char>, n: int)
    requires
        0 <= n <= s.len(),
    ensures
        digits_val(s.take(n)) <= digits_val(s),
    decreases s.len(),
{
    if n == s.len() {
        assert(s.take(n) =~= s);
    } else {
        lemma_digits_val_mono(s.drop_last(), n);
        assert(s.drop_last().take(n) =~= s.take(n));
    }
}

/// A power of ten is positive.
pub proof fn lemma_pow10_positive(n: nat)
    ensures
        pow10(n) > 0,
    decreases n,
{
    if n > 0 {
        lemma_pow10_positive((n - 1) as nat);
    }
}

/// A number of `n` digits is below the `n`-th power of ten.
pub proof fn lemma_digits_val_bound(s: Seq<char>)
    requires
        all_digits(s),
    ensures
        digits_val(s) < pow10(s.len()),
    decreases s.len(),
{
    if s.len() > 0 {
        assert(all_digits(s.drop_last())) by {
            assert forall|i: int| 0 <= i < s.drop_last().len() implies is_digit(
                #[trigger] s.drop_last()[i],
            ) by {
                assert(s.drop_last()[i] == s[i]);
            }
        }
        lemma_digits_val_bound(s.drop_last());
        assert(is_digit(s[s.len() - 1]));
    }
}

/// Splitting gives at least one piece.
pub proof fn lemma_split_len(s: Seq<char>, d: char)
    ensures
        spec_split(s, d).len() >= 1,
{
}

/// The letters that name a unit and the letters `c`, `g` and `v`, which
/// name what a tempo refers to, all differ.
pub proof fn reveal_unit_letters()
    ensures
        "s"@ != "c"@,
        "m"@ != "c"@,
        "b"@ != "c"@,
        "s"@ != "g"@,
        "m"@ != "g"@,
        "b"@ != "g"@,
        "s"@ != "v"@,
        "m"@ != "v"@,
        "b"@ != "v"@,
{
    reveal_strlit("s");
    reveal_strlit("m");
    reveal_strlit("b");
    reveal_strlit("c");
    reveal_strlit("g");
    reveal_strlit("v");
    assert("s"@[0] == 's');
    assert("m"@[0] == 'm');
    assert("b"@[0] == 'b');
    assert("c"@[0] == 'c');
    assert("g"@[0] == 'g');
    assert("v"@[0] == 'v');
}

/// The characters of a string slice.
pub fn chars_of(s: &str) -> (v: Vec<char>)
    ensures
        v@ == s@,
{
    let mut v: Vec<char> = Vec::new();
    let n: usize = s.unicode_len();
    let mut i: usize = 0;
    while i < n
        invariant
            n == s@.len(),
            i <= n,
            v@ == s@.subrange(0, i as int),
        decreases n - i,
    {
        v.push(s.get_char(i));
        i += 1;
    }
    v
}

/// A string of the given characters.
pub fn to_string(v: &Vec<char>) -> (s: String)
    ensures
        s@ == v@,
{
    let mut s = String::new();
    let mut i: usize = 0;
    while i < v.len()
        invariant
            i <= v.len(),
            s@ == v@.subrange(0, i as int),
        decreases v.len() - i,
    {
        s.push(v[i]);
        i += 1;
    }
    assert(v@.subrange(0, v@.len() as int) == v@);
    s
}

/// Whether two texts hold the same characters.
pub fn same_text(a: &Vec<char>, b: &Vec<char>) -> (r: bool)
    ensures
        r == (a@ == b@),
{
    if a.len() != b.len() {
        return false;
    }
    let mut i: usize = 0;
    while i < a.len()
        invariant
            i <= a.len(),
            a.len() == b.len(),
            forall|j: int| 0 <= j < i ==> a@[j] == b@[j],
        decreases a.len() - i,
    {
        if a[i] != b[i] {
            return false;
        }
        i += 1;
    }
    assert(a@ =~= b@);
    true
}

/// Whether `tok` is the word `lit`.
pub fn is_word(tok: &Vec<char>, lit: &str) -> (r: bool)
    ensures
        r == (tok@ == lit@),
{
    let n: usize = lit.unicode_len();
    if tok.len() != n {
        return false;
    }
    let mut i: usize = 0;
    while i < n
        invariant
            i <= n,
            n == lit@.len(),
            tok.len() == n,
            forall|j: int| 0 <= j < i ==> tok@[j] == lit@[j],
        decreases n - i,
    {
        if tok[i] != lit.get_char(i) {
            return false;
        }
        i += 1;
    }
    assert(tok@ =~= lit@);
    true
}

/// A copy of the characters of `s` from `from` up to `to`.
pub fn copy_range(s: &Vec<char>, from: usize, to: usize) -> (r: Vec<char>)
    requires
        from <= to <= s.len(),
    ensures
        r@ == s@.subrange(from as int, to as int),
{
    let mut r: Vec<char> = Vec::new();
    let mut i: usize = from;
    while i < to
        invariant
            from <= i <= to <= s.len(),
            r@ == s@.subrange(from as int, i as int),
        decreases to - i,
    {
        r.push(s[i]);
        i += 1;
    }
    r
}

/// Index of the first `d` at or after `from`, or the length of `s`.
pub fn find_from(s: &Vec<char>, from: usize, d: char) -> (r: usize)
    requires
        from <= s.len(),
    ensures
        from <= r <= s.len(),
        r - from == first_index(s@.skip(from as int), d),
{
    let mut i: usize = from;
    while i < s.len() && s[i] != d
        invariant
            from <= i <= s.len(),
            forall|j: int| from <= j < i ==> s@[j] != d,
        decreases s.len() - i,
    {
        i += 1;
    }
    proof {
        lemma_first_index(s@.skip(from as int), d, i - from);
    }
    i
}

/// Splits `s` at every `d`.
pub fn split(s: &Vec<char>, d: char) -> (r: Vec<Vec<char>>)
    ensures
        lines(r@) == spec_split(s@, d),
        r.len() >= 1,
{
    let mut out: Vec<Vec<char>> = Vec::new();
    let mut start: usize = 0;
    proof {
        assert(s@.skip(0) =~= s@);
        assert(lines(out@) + spec_split(s@, d) =~= spec_split(s@, d));
    }
    loop
        invariant
            start <= s.len(),
            spec_split(s@, d) == lines(out@) + spec_split(s@.skip(start as int), d),
        decreases s.len() - start,
    {
        let end = find_from(s, start, d);
        let piece = copy_range(s, start, end);
        let ghost rest = s@.skip(start as int);
        let ghost before = lines(out@);
        assert(rest.take(end - start) =~= s@.subrange(start as int, end as int));
        out.push(piece);
        assert(lines(out@) =~= before + seq![piece@]);
        if end >= s.len() {
            assert(rest.take(end - start) =~= rest);
            assert(spec_split(rest, d) == seq![rest]);
            return out;
        }
        assert(rest.skip(end - start + 1) =~= s@.skip(end + 1));
        assert(spec_split(rest, d) == seq![rest.take(end - start)] + spec_split(
            s@.skip(end + 1),
            d,
        ));
        assert(before + (seq![piece@] + spec_split(s@.skip(end + 1), d)) =~= (before + seq![
            piece@,
        ]) + spec_split(s@.skip(end + 1), d));
        start = end + 1;
    }
}

/// Whether `c` separates words.
pub fn space(c: char) -> (r: bool)
    ensures
        r == is_space(c),
{
    (c >= '\u{9}' && c <= '\u{D}') || c == ' ' || c == '\u{85}' || c == '\u{A0}' || c
        == '\u{1680}' || (c >= '\u{2000}' && c <= '\u{200A}') || c == '\u{2028}' || c
        == '\u{2029}' || c == '\u{202F}' || c == '\u{205F}' || c == '\u{3000}'
}

/// End of the run of spaces (`want`) or of other characters (`!want`) that
/// starts at `from`.
pub fn run_end(s: &Vec<char>, from: usize, want: bool) -> (r: usize)
    requires
        from <= s.len(),
    ensures
        from <= r <= s.len(),
        r - from == run_len(s@.skip(from as int), want),
{
    let mut i: usize = from;
    while i < s.len() && space(s[i]) == want
        invariant
            from <= i <= s.len(),
            forall|j: int| from <= j < i ==> is_space(s@[j]) == want,
        decreases s.len() - i,
    {
        i += 1;
    }
    proof {
        lemma_run_len(s@.skip(from as int), want, i - from);
    }
    i
}

/// The words of `s`.
pub fn words(s: &Vec<char>) -> (r: Vec<Vec<char>>)
    ensures
        lines(r@) == spec_words(s@),
{
    let mut out: Vec<Vec<char>> = Vec::new();
    let mut start: usize = 0;
    proof {
        assert(s@.skip(0) =~= s@);
        assert(lines(out@) + spec_words(s@) =~= spec_words(s@));
    }
    loop
        invariant
            start <= s.len(),
            spec_words(s@) == lines(out@) + spec_words(s@.skip(start as int)),
        decreases s.len() - start,
    {
        let a = run_end(s, start, true);
        let b = run_end(s, a, false);
        let ghost here = s@.skip(start as int);
        let ghost rest = here.skip(a - start);
        assert(rest =~= s@.skip(a as int));
        if b == a {
            assert(spec_words(here) == Seq::<Seq<char>>::empty());
            assert(lines(out@) + Seq::<Seq<char>>::empty() =~= lines(out@));
            return out;
        }
        let piece = copy_range(s, a, b);
        let ghost before = lines(out@);
        assert(rest.take(b - a) =~= s@.subrange(a as int, b as int));
        assert(rest.skip(b - a) =~= s@.skip(b as int));
        out.push(piece);
        assert(lines(out@) =~= before + seq![piece@]);
        assert(spec_words(here) == seq![piece@] + spec_words(s@.skip(b as int)));
        assert(before + (seq![piece@] + spec_words(s@.skip(b as int))) =~= (before + seq![
            piece@,
        ]) + spec_words(s@.skip(b as int)));
        start = b;
    }
}

/// The number that the digits of `s` from `from` up to `to` write, where all
/// of them are digits and the number is at most `limit`.
pub fn digits(s: &Vec<char>, from: usize, to: usize, limit: u64) -> (r: Option<u64>)
    requires
        from <= to <= s.len(),
    ensures
        r == if all_digits(s@.subrange(from as int, to as int)) && digits_val(
            s@.subrange(from as int, to as int),
        ) <= limit {
            Some(digits_val(s@.subrange(from as int, to as int)) as u64)
        } else {
            None
        },
{
    let ghost sub = s@.subrange(from as int, to as int);
    let mut acc: u128 = 0;
    let mut i: usize = from;
    while i < to
        invariant
            from <= i <= to <= s.len(),
            sub == s@.subrange(from as int, to as int),
            all_digits(sub.take(i - from)),
            acc == digits_val(sub.take(i - from)),
            acc <= limit,
        decreases to - i,
    {
        let c = s[i];
        let ghost next = sub.take(i - from + 1);
        assert(next.drop_last() =~= sub.take(i - from));
        assert(next.last() == c);
        if !(c >= '0' && c <= '9') {
            assert(!is_digit(sub[i - from]));
            return None;
        }
        let dv: u128 = (c as u32 - '0' as u32) as u128;
        acc = acc * 10 + dv;
        assert(acc == digits_val(next));
        assert(all_digits(next)) by {
            assert forall|j: int| 0 <= j < next.len() implies is_digit(#[trigger] next[j]) by {
                if j < i - from {
                    assert(next[j] == sub.take(i - from)[j]);
                }
            }
        }
        if acc > limit as u128 {
            proof {
                lemma_digits_val_mono(sub, i - from + 1);
            }
            return None;
        }
        i += 1;
    }
    assert(sub.take(to - from) =~= sub);
    Some(acc as u64)
}

/// Reads an unsigned integer.
pub fn parse_usize(s: &Vec<char>) -> (r: Option<usize>)
    ensures
        r == spec_parse_usize(s@),
{
    let from: usize = if s.len() > 0 && s[0] == '+' { 1 } else { 0 };
    assert(s@.subrange(from as int, s.len() as int) =~= strip_plus(s@));
    if from == s.len() {
        return None;
    }
    match digits(s, from, s.len(), usize::MAX as u64) {
        Some(v) => Some(v as usize),
        None => None,
    }
}

/// Ten to the power `n`.
fn power_of_ten(n: usize) -> (r: u64)
    requires
        n <= 9,
    ensures
        r == pow10(n as nat),
        0 < r <= 1_000_000_000,
{
    let mut r: u64 = 1;
    let mut i: usize = 0;
    while i < n
        invariant
            i <= n <= 9,
            r == pow10(i as nat),
            0 < r <= 1_000_000_000,
        decreases n - i,
    {
        proof {
            lemma_pow10_nine((i + 1) as nat);
        }
        r = r * 10;
        i += 1;
    }
    r
}

proof fn lemma_pow10_nine(n: nat)
    requires
        n <= 9,
    ensures
        pow10(n) <= 1_000_000_000,
{
    reveal_with_fuel(pow10, 11);
}

/// Whether the characters of `s` from `from` up to `to` all are digits.
pub fn only_digits(s: &Vec<char>, from: usize, to: usize) -> (r: bool)
    requires
        from <= to <= s.len(),
    ensures
        r == all_digits(s@.subrange(from as int, to as int)),
{
    let ghost sub = s@.subrange(from as int, to as int);
    let mut i: usize = from;
    while i < to
        invariant
            from <= i <= to <= s.len(),
            sub == s@.subrange(from as int, to as int),
            forall|j: int| 0 <= j < i - from ==> is_digit(#[trigger] sub[j]),
        decreases to - i,
    {
        let c = s[i];
        if !(c >= '0' && c <= '9') {
            assert(!is_digit(sub[i - from]));
            return false;
        }
        i += 1;
    }
    true
}

/// Raw value of the fraction that the digits from `from` up to `to` write.
fn fraction(s: &Vec<char>, from: usize, to: usize) -> (r: u64)
    requires
        from <= to <= s.len(),
        all_digits(s@.subrange(from as int, to as int)),
    ensures
        r == frac_raw(s@.subrange(from as int, to as int)),
        r < 65536,
{
    let ghost f = s@.subrange(from as int, to as int);
    let used_to: usize = if to - from > 9 { from + 9 } else { to };
    let ghost used = s@.subrange(from as int, used_to as int);
    proof {
        assert(used =~= if f.len() > 9 { f.take(9) } else { f });
        assert(all_digits(used)) by {
            assert forall|j: int| 0 <= j < used.len() implies is_digit(#[trigger] used[j]) by {
                assert(used[j] == f[j]);
            }
        }
        lemma_digits_val_bound(used);
        lemma_pow10_nine(used.len());
    }
    let scale = power_of_ten(used_to - from);
    match digits(s, from, used_to, 999_999_999) {
        Some(part) => {
            let r: u64 = part * 65536 / scale;
            assert(r < 65536) by (nonlinear_arith)
                requires
                    r == part * 65536 / scale as int,
                    part < scale,
                    scale > 0,
            ;
            r
        },
        None => 0,
    }
}

/// Reads a fixed-point number.
pub fn parse_fixed(s: &Vec<char>) -> (r: Option<Fixed>)
    ensures
        r == spec_parse_fixed(s@),
{
    let signed = s.len() > 0 && (s[0] == '-' || s[0] == '+');
    let negative = s.len() > 0 && s[0] == '-';
    let from: usize = if signed { 1 } else { 0 };
    let ghost body = s@.skip(from as int);
    let dot = find_from(s, from, '.');
    let frac_from: usize = if dot < s.len() { dot + 1 } else { dot };
    proof {
        assert(signed == has_sign(s@));
        assert(s@.skip(0) =~= s@);
        assert(body == if has_sign(s@) { s@.skip(1) } else { s@ });
        assert(dot - from == first_index(body, '.'));
        assert(whole_digits(s@) =~= s@.subrange(from as int, dot as int));
        if dot < s.len() {
            assert(body.skip(dot - from + 1) =~= s@.subrange(frac_from as int, s.len() as int));
        }
        assert(frac_digits(s@) =~= s@.subrange(frac_from as int, s.len() as int));
    }
    if dot - from + (s.len() - frac_from) == 0 {
        return None;
    }
    let whole = match digits(s, from, dot, 0x7fff_ffff_ffff) {
        Some(v) => v,
        None => {
            return None;
        },
    };
    if !only_digits(s, frac_from, s.len()) {
        return None;
    }
    let fr = fraction(s, frac_from, s.len());
    let mag: u64 = whole * 65536 + fr;
    if negative {
        Some(Fixed { raw: -(mag as i64) })
    } else {
        Some(Fixed { raw: mag as i64 })
    }
}

} // verus!
