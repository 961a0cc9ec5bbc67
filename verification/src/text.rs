//! Comparisons on text that verified code can reason about.

use vstd::prelude::*;
use vstd::string::*;
use vstd::utf8::*;

verus! {

/// `tail` stands at the end of `whole`.
pub open spec fn is_suffix(whole: Seq<char>, tail: Seq<char>) -> bool {
    tail.len() <= whole.len() && whole.subrange(whole.len() - tail.len(), whole.len() as int) == tail
}

/// Two texts hold the same characters exactly when their encodings agree.
pub proof fn lemma_same_encoding(a: Seq<char>, b: Seq<char>)
    ensures
        (encode_utf8(a) == encode_utf8(b)) <==> (a == b),
{
    encode_utf8_decode_utf8(a);
    encode_utf8_decode_utf8(b);
}

/// Whether two byte strings are equal.
pub fn same_bytes(a: &[u8], b: &[u8]) -> (same: bool)
    ensures
        same == (a@ == b@),
{
    if a.len() != b.len() {
        return false;
    }
    let mut i: usize = 0;
    while i < a.len()
        invariant
            a@.len() == b@.len(),
            i <= a.len(),
            forall|j: int| 0 <= j < i ==> a@[j] == b@[j],
        decreases a.len() - i,
    {
        if a[i] != b[i] {
            return false;
        }
        i += 1;
    }
    assert(a@ =~= b@);
    true
}

/// Whether two texts hold the same characters.
pub fn same_text(a: &str, b: &str) -> (same: bool)
    ensures
        same == (a@ == b@),
{
    proof {
        lemma_same_encoding(a@, b@);
    }
    same_bytes(a.as_bytes(), b.as_bytes())
}

/// Whether `whole` ends with `tail`.
pub fn ends_with(whole: &str, tail: &str) -> (yes: bool)
    ensures
        yes == is_suffix(whole@, tail@),
{
    let n: usize = whole.unicode_len();
    let k: usize = tail.unicode_len();
    if k > n {
        return false;
    }
    let start: usize = n - k;
    let mut i: usize = 0;
    while i < k
        invariant
            n == whole@.len(),
            k == tail@.len(),
            k <= n,
            start == n - k,
            i <= k,
            forall|j: int| 0 <= j < i ==> whole@[start + j] == tail@[j],
        decreases k - i,
    {
        if whole.get_char(start + i) != tail.get_char(i) {
            assert(whole@.subrange(start as int, n as int)[i as int] != tail@[i as int]);
            return false;
        }
        i += 1;
    }
    assert(whole@.subrange(start as int, n as int) =~= tail@);
    true
}

/// Where `c` stands last in `text`, if it stands in it at all.
pub open spec fn last_place_of(text: Seq<char>, c: char) -> Option<int> {
    if exists|i: int| 0 <= i < text.len() && text[i] == c {
        Some(choose|i: int| is_last_place_of(text, c, i))
    } else {
        None
    }
}

/// `c` stands at `at` in `text`, and nowhere after.
pub open spec fn is_last_place_of(text: Seq<char>, c: char, at: int) -> bool {
    &&& 0 <= at < text.len()
    &&& text[at] == c
    &&& forall|j: int| at < j < text.len() ==> text[j] != c
}

/// Finds where `c` stands last in `text`.
pub fn last_index_of(text: &str, c: char) -> (found: Option<usize>)
    ensures
        match found {
            Some(at) => is_last_place_of(text@, c, at as int),
            None => forall|i: int| 0 <= i < text@.len() ==> text@[i] != c,
        },
        found == match last_place_of(text@, c) {
            Some(at) => Some(at as usize),
            None => None,
        },
{
    let n: usize = text.unicode_len();
    let mut i: usize = n;
    while i > 0
        invariant
            n == text@.len(),
            i <= n,
            forall|j: int| i <= j < n ==> text@[j] != c,
        decreases i,
    {
        i -= 1;
        if text.get_char(i) == c {
            proof {
                assert(is_last_place_of(text@, c, i as int));
                let w = choose|w: int| is_last_place_of(text@, c, w);
                assert(w == i);
            }
            return Some(i);
        }
    }
    None
}

/// `pattern` stands in `text` at `at`.
pub open spec fn stands_at(text: Seq<char>, pattern: Seq<char>, at: int) -> bool {
    &&& 0 <= at
    &&& at + pattern.len() <= text.len()
    &&& text.subrange(at, at + pattern.len()) == pattern
}

/// `pattern` stands in `text` at `at`, and nowhere after.
pub open spec fn is_last_stand(text: Seq<char>, pattern: Seq<char>, at: int) -> bool {
    &&& stands_at(text, pattern, at)
    &&& forall|j: int| at < j ==> !stands_at(text, pattern, j)
}

/// Where `pattern` stands last in `text`, if it stands in it at all.
pub open spec fn last_stand(text: Seq<char>, pattern: Seq<char>) -> Option<int> {
    if exists|at: int| stands_at(text, pattern, at) {
        Some(choose|at: int| is_last_stand(text, pattern, at))
    } else {
        None
    }
}

fn stands(text: &str, pattern: &str, at: usize) -> (yes: bool)
    requires
        at + pattern@.len() <= text@.len(),
    ensures
        yes == stands_at(text@, pattern@, at as int),
{
    let n: usize = text.unicode_len();
    let k: usize = pattern.unicode_len();
    let mut j: usize = 0;
    while j < k
        invariant
            n == text@.len(),
            k == pattern@.len(),
            at + k <= n,
            j <= k,
            forall|i: int| 0 <= i < j ==> text@[at + i] == pattern@[i],
        decreases k - j,
    {
        if text.get_char(at + j) != pattern.get_char(j) {
            assert(text@.subrange(at as int, at + k)[j as int] != pattern@[j as int]);
            return false;
        }
        j += 1;
    }
    assert(text@.subrange(at as int, at + k) =~= pattern@);
    true
}

/// Finds where `pattern` stands last in `text`.
pub fn find_last(text: &str, pattern: &str) -> (found: Option<usize>)
    ensures
        match found {
            Some(at) => is_last_stand(text@, pattern@, at as int),
            None => forall|j: int| !stands_at(text@, pattern@, j),
        },
        found == match last_stand(text@, pattern@) {
            Some(at) => Some(at as usize),
            None => None,
        },
{
    let n: usize = text.unicode_len();
    let k: usize = pattern.unicode_len();
    if k > n {
        return None;
    }
    let mut at: usize = n - k;
    loop
        invariant
            n == text@.len(),
            k == pattern@.len(),
            k <= n,
            at <= n - k,
            forall|j: int| at < j ==> !stands_at(text@, pattern@, j),
        decreases at,
    {
        if stands(text, pattern, at) {
            proof {
                assert(is_last_stand(text@, pattern@, at as int));
                let w = choose|w: int| is_last_stand(text@, pattern@, w);
                assert(w == at);
            }
            return Some(at);
        }
        if at == 0 {
            return None;
        }
        at -= 1;
    }
}

/// The part of `text` from character `from` up to character `to`.
pub fn part(text: &str, from: usize, to: usize) -> (cut: String)
    requires
        from <= to <= text@.len(),
    ensures
        cut@ == text@.subrange(from as int, to as int),
{
    text.substring_char(from, to).to_owned()
}

/// The character that writes a digit.
pub open spec fn digit_char(d: nat) -> char {
    if d == 0 {
        '0'
    } else if d == 1 {
        '1'
    } else if d == 2 {
        '2'
    } else if d == 3 {
        '3'
    } else if d == 4 {
        '4'
    } else if d == 5 {
        '5'
    } else if d == 6 {
        '6'
    } else if d == 7 {
        '7'
    } else if d == 8 {
        '8'
    } else {
        '9'
    }
}

/// A number written in base ten.
pub open spec fn decimal(n: nat) -> Seq<char>
    decreases n,
{
    if n < 10 {
        seq![digit_char(n)]
    } else {
        decimal(n / 10).push(digit_char(n % 10))
    }
}

/// A whole number written in base ten, with `-` in front if it is negative.
pub open spec fn signed_decimal(v: int) -> Seq<char> {
    if v < 0 {
        seq!['-'] + decimal((-v) as nat)
    } else {
        decimal(v as nat)
    }
}

fn digit_text(d: u64) -> (text: &'static str)
    requires
        d < 10,
    ensures
        text@ == seq![digit_char(d as nat)],
{
    proof {
        reveal_strlit("0");
        reveal_strlit("1");
        reveal_strlit("2");
        reveal_strlit("3");
        reveal_strlit("4");
        reveal_strlit("5");
        reveal_strlit("6");
        reveal_strlit("7");
        reveal_strlit("8");
        reveal_strlit("9");
    }
    let text: &'static str = if d == 0 {
        "0"
    } else if d == 1 {
        "1"
    } else if d == 2 {
        "2"
    } else if d == 3 {
        "3"
    } else if d == 4 {
        "4"
    } else if d == 5 {
        "5"
    } else if d == 6 {
        "6"
    } else if d == 7 {
        "7"
    } else if d == 8 {
        "8"
    } else {
        "9"
    };
    assert(text@ =~= seq![digit_char(d as nat)]);
    text
}

/// Writes `n` in base ten at the end of `out`.
pub fn push_decimal(n: u64, out: &mut String)
    ensures
        final(out)@ == old(out)@ + decimal(n as nat),
    decreases n,
{
    if n >= 10 {
        push_decimal(n / 10, out);
    }
    out.append(digit_text(n % 10));
    assert(out@ =~= old(out)@ + decimal(n as nat));
}

/// A whole number written in base ten.
pub fn integer_text(v: i32) -> (text: String)
    ensures
        text@ == signed_decimal(v as int),
{
    let mut text: String = String::new();
    if v < 0 {
        text.append("-");
        proof {
            reveal_strlit("-");
            assert("-"@ =~= seq!['-']);
        }
        push_decimal((-(v as i64)) as u64, &mut text);
    } else {
        push_decimal(v as u64, &mut text);
    }
    assert(text@ =~= signed_decimal(v as int));
    text
}

/// The byte is one of the digits `0` to `9`.
pub open spec fn is_digit(b: u8) -> bool {
    0x30 <= b <= 0x39
}

/// The bytes are digits, and there is at least one.
pub open spec fn all_digits(s: Seq<u8>) -> bool {
    s.len() > 0 && forall|i: int| 0 <= i < s.len() ==> is_digit(#[trigger] s[i])
}

/// The number that digits write in base ten.
pub open spec fn digits_value(s: Seq<u8>) -> nat
    decreases s.len(),
{
    if s.len() == 0 {
        0
    } else {
        digits_value(s.drop_last()) * 10 + (s.last() - 0x30) as nat
    }
}

/// More digits never write a smaller number.
pub proof fn lemma_digits_grow(s: Seq<u8>, upto: int)
    requires
        0 <= upto <= s.len(),
        forall|i: int| 0 <= i < s.len() ==> is_digit(#[trigger] s[i]),
    ensures
        digits_value(s.subrange(0, upto)) <= digits_value(s),
    decreases s.len() - upto,
{
    if upto < s.len() {
        let longer = s.subrange(0, upto + 1);
        assert(longer.drop_last() =~= s.subrange(0, upto));
        assert(is_digit(s[upto]));
        assert(longer.last() == s[upto]);
        lemma_digits_grow(s, upto + 1);
    } else {
        assert(s.subrange(0, upto) =~= s);
    }
}

/// The largest `limit` that `parse_digits` can be asked to read up to.
pub const MAX_DIGITS_LIMIT: u64 = 0x00FF_FFFF_FFFF_FFFF;

/// Reads the digits `bytes[from..to]` as a number up to `limit`.
pub fn parse_digits(bytes: &[u8], from: usize, to: usize, limit: u64) -> (value: Option<u64>)
    requires
        from <= to <= bytes@.len(),
        limit <= MAX_DIGITS_LIMIT,
    ensures
        value == if all_digits(bytes@.subrange(from as int, to as int)) && digits_value(
            bytes@.subrange(from as int, to as int),
        ) <= limit {
            Some(digits_value(bytes@.subrange(from as int, to as int)) as u64)
        } else {
            None
        },
{
    let ghost digits = bytes@.subrange(from as int, to as int);
    if from == to {
        return None;
    }
    let mut acc: u64 = 0;
    let mut i: usize = from;
    assert(digits.subrange(0, 0) =~= Seq::<u8>::empty());
    while i < to
        invariant
            from <= i <= to <= bytes@.len(),
            limit <= MAX_DIGITS_LIMIT,
            digits == bytes@.subrange(from as int, to as int),
            acc == digits_value(digits.subrange(0, i - from)),
            acc <= limit,
            forall|j: int| 0 <= j < i - from ==> is_digit(#[trigger] digits[j]),
        decreases to - i,
    {
        let b: u8 = bytes[i];
        assert(digits[i - from] == b);
        if b < 0x30 || b > 0x39 {
            return None;
        }
        proof {
            let longer = digits.subrange(0, i - from + 1);
            assert(longer.drop_last() =~= digits.subrange(0, i - from));
            assert(longer.last() == b);
        }
        let next: u64 = acc * 10 + (b - 0x30) as u64;
        if next > limit {
            proof {
                if all_digits(digits) {
                    lemma_digits_grow(digits, i - from + 1);
                }
            }
            return None;
        }
        acc = next;
        i += 1;
    }
    assert(digits.subrange(0, digits.len() as int) =~= digits);
    Some(acc)
}

/// The whole number that `s` writes in base ten with an optional sign, if it
/// writes one.
pub open spec fn integer_value(s: Seq<u8>) -> Option<int> {
    if s.len() > 0 && s[0] == 0x2D {
        if all_digits(s.skip(1)) {
            Some(-(digits_value(s.skip(1)) as int))
        } else {
            None
        }
    } else if s.len() > 0 && s[0] == 0x2B {
        if all_digits(s.skip(1)) {
            Some(digits_value(s.skip(1)) as int)
        } else {
            None
        }
    } else if all_digits(s) {
        Some(digits_value(s) as int)
    } else {
        None
    }
}

/// Reads a whole number in base ten: an optional `-` or `+`, then digits.
/// `None` if the text is no such number or the number does not fit.
pub fn parse_i32(text: &str) -> (value: Option<i32>)
    ensures
        value == match integer_value(text.spec_bytes()) {
            Some(v) => if i32::MIN <= v <= i32::MAX {
                Some(v as i32)
            } else {
                None
            },
            None => None,
        },
{
    let bytes: &[u8] = text.as_bytes();
    let len: usize = bytes.len();
    if len == 0 {
        return None;
    }
    let first: u8 = bytes[0];
    let from: usize = if first == 0x2D || first == 0x2B {
        1
    } else {
        0
    };
    assert(bytes@.subrange(from as int, len as int) =~= bytes@.skip(from as int));
    assert(bytes@.skip(0) =~= bytes@);
    match parse_digits(bytes, from, len, 0x8000_0000) {
        Some(magnitude) => {
            if first == 0x2D {
                Some((-(magnitude as i64)) as i32)
            } else if magnitude <= 0x7FFF_FFFF {
                Some(magnitude as i32)
            } else {
                None
            }
        },
        None => None,
    }
}

/// The character is one of the digits `0` to `9`.
pub open spec fn is_digit_char(c: char) -> bool {
    0x30 <= c as u32 <= 0x39
}

/// Number of digits that `s` ends with.
pub open spec fn digit_run(s: Seq<char>) -> nat
    decreases s.len(),
{
    if s.len() > 0 && is_digit_char(s.last()) {
        digit_run(s.drop_last()) + 1
    } else {
        0
    }
}

/// The digits that `s` ends with, as bytes.
pub open spec fn tail_digits(s: Seq<char>) -> Seq<u8> {
    let run = digit_run(s);
    Seq::new(run, |i: int| (s[s.len() - run + i] as u32) as u8)
}

/// What is added to a name that does not end with a number.
pub open spec fn count_suffix() -> Seq<char> {
    " 2"@
}

/// The name that follows `name`. If `name` ends with a number, the number is
/// counted up by one; otherwise ` 2` is added. A number too large to count up
/// is treated as part of the name.
pub open spec fn incremented(name: Seq<char>) -> Seq<char> {
    let run = digit_run(name);
    if run > 0 && digits_value(tail_digits(name)) < MAX_DIGITS_LIMIT {
        name.subrange(0, name.len() - run) + decimal(digits_value(tail_digits(name)) + 1)
    } else {
        name + count_suffix()
    }
}

proof fn lemma_digit_run_is(s: Seq<char>, start: int)
    requires
        0 <= start <= s.len(),
        forall|i: int| start <= i < s.len() ==> is_digit_char(#[trigger] s[i]),
        start > 0 ==> !is_digit_char(s[start - 1]),
    ensures
        digit_run(s) == s.len() - start,
    decreases s.len(),
{
    if start < s.len() {
        assert(is_digit_char(s[s.len() - 1]));
        let rest = s.drop_last();
        assert forall|i: int| start <= i < rest.len() implies is_digit_char(#[trigger] rest[i]) by {
            assert(rest[i] == s[i]);
        }
        if start > 0 {
            assert(rest[start - 1] == s[start - 1]);
        }
        lemma_digit_run_is(rest, start);
    }
}

/// The name that follows `name`: a copy made of a patch called `name` is
/// called that.
pub fn increment_name(name: &str) -> (next: String)
    ensures
        next@ == incremented(name@),
{
    let n: usize = name.unicode_len();
    let mut start: usize = n;
    let mut scanning: bool = true;
    while scanning && start > 0
        invariant
            n == name@.len(),
            start <= n,
            forall|i: int| start <= i < n ==> is_digit_char(#[trigger] name@[i]),
            !scanning ==> start > 0 && !is_digit_char(name@[start - 1]),
        decreases start + (if scanning { 1nat } else { 0nat }),
    {
        let c: char = name.get_char(start - 1);
        if (c as u32) < 0x30 || (c as u32) > 0x39 {
            scanning = false;
        } else {
            start -= 1;
        }
    }
    proof {
        lemma_digit_run_is(name@, start as int);
    }
    let ghost digits = tail_digits(name@);
    assert(digits.len() == n - start);
    assert forall|j: int| 0 <= j < digits.len() implies is_digit(#[trigger] digits[j]) by {
        assert(is_digit_char(name@[start + j]));
    }
    let mut fits: bool = start < n;
    let mut acc: u64 = 0;
    let mut i: usize = start;
    assert(digits.subrange(0, 0) =~= Seq::<u8>::empty());
    while fits && i < n
        invariant
            n == name@.len(),
            start <= i <= n,
            digits == tail_digits(name@),
            digits.len() == n - start,
            digit_run(name@) == n - start,
            forall|j: int| 0 <= j < digits.len() ==> is_digit(#[trigger] digits[j]),
            forall|j: int| start <= j < n ==> is_digit_char(#[trigger] name@[j]),
            fits ==> acc == digits_value(digits.subrange(0, i - start)) && acc < MAX_DIGITS_LIMIT && start < n,
            !fits ==> start == n || digits_value(digits) >= MAX_DIGITS_LIMIT,
        decreases n - i + (if fits { 1nat } else { 0nat }),
    {
        let c: char = name.get_char(i);
        proof {
            assert(is_digit_char(name@[i as int]));
            assert(digits[i - start] == (name@[i as int] as u32) as u8);
            assert(is_digit(digits[i - start]));
            let longer = digits.subrange(0, i - start + 1);
            assert(longer.drop_last() =~= digits.subrange(0, i - start));
            assert(longer.last() == digits[i - start]);
        }
        let next: u64 = acc * 10 + (c as u32 - 0x30) as u64;
        if next >= MAX_DIGITS_LIMIT {
            proof {
                lemma_digits_grow(digits, i - start + 1);
            }
            fits = false;
        } else {
            acc = next;
            i += 1;
        }
    }
    if fits {
        assert(digits.subrange(0, digits.len() as int) =~= digits);
        let mut next: String = part(name, 0, start);
        push_decimal(acc + 1, &mut next);
        next
    } else {
        let mut next: String = name.to_owned();
        next.append(" 2");
        next
    }
}

} // verus!
