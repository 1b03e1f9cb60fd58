//! Cell names: `<column letters><row number>`, e.g. `B12`. Columns are
//! written in bijective base 26 over `A`..`Z` and numbered from zero, so
//! `A` is column 0, `Z` is 25 and `AA` is 26. A range reference joins two
//! cell names with `_`, e.g. `A1_B3`.
use vstd::prelude::*;

verus! {

pub open spec fn is_upper(c: char) -> bool {
    65 <= c as u32 && c as u32 <= 90
}

pub open spec fn is_digit(c: char) -> bool {
    48 <= c as u32 && c as u32 <= 57
}

/// Value of one column letter, 1 for `A` through 26 for `Z`.
pub open spec fn letter_value(c: char) -> nat {
    (c as u32 - 64) as nat
}

pub open spec fn digit_value(c: char) -> nat {
    (c as u32 - 48) as nat
}

/// Bijective base-26 value of a letter sequence; `A` is 1, `AA` is 27.
pub open spec fn letters_value(s: Seq<char>) -> nat
    decreases s.len(),
{
    if s.len() == 0 {
        0
    } else {
        letters_value(s.drop_last()) * 26 + letter_value(s.last())
    }
}

/// Decimal value of a digit sequence.
pub open spec fn digits_value(s: Seq<char>) -> nat
    decreases s.len(),
{
    if s.len() == 0 {
        0
    } else {
        digits_value(s.drop_last()) * 10 + digit_value(s.last())
    }
}

/// How many uppercase letters the string starts with.
pub open spec fn upper_len(s: Seq<char>) -> nat
    decreases s.len(),
{
    if s.len() > 0 && is_upper(s[0]) {
        1 + upper_len(s.subrange(1, s.len() as int))
    } else {
        0
    }
}

pub open spec fn all_digits(s: Seq<char>) -> bool {
    forall|i: int| 0 <= i < s.len() ==> is_digit(s[i])
}

/// One past the largest column value a `u32` column number can carry.
pub open spec fn column_limit() -> nat {
    0x1_0000_0000
}

/// A cell name parses when it is uppercase letters followed by digits and
/// both parts fit in a `u32`; the result is the zero-based column number
/// and the row number as written.
pub open spec fn parse_cell(s: Seq<char>) -> Option<(u32, u32)> {
    let k = upper_len(s) as int;
    let letters = s.subrange(0, k);
    let digits = s.subrange(k, s.len() as int);
    if 1 <= k && k < s.len() && all_digits(digits) && letters_value(letters) <= column_limit()
        && digits_value(digits) <= 0xFFFF_FFFF {
        Some((((letters_value(letters) - 1) as u32), (digits_value(digits) as u32)))
    } else {
        None
    }
}

/// Canonical letters of the one-based bijective base-26 numeral `n`.
pub open spec fn letters_of(n: nat) -> Seq<char>
    decreases n,
{
    if n == 0 {
        Seq::empty()
    } else {
        letters_of((((n - 1) / 26) as nat)).push(letter_char((((n - 1) % 26) as nat)))
    }
}

/// The letter written for one bijective base-26 digit, 0 for `A`.
pub open spec fn letter_char(d: nat) -> char {
    (65 + d) as char
}

pub open spec fn digit_char(d: nat) -> char {
    (48 + d) as char
}

/// Canonical decimal digits of `n`, most significant first.
pub open spec fn decimal_of(n: nat) -> Seq<char>
    decreases n,
{
    if n < 10 {
        seq![digit_char(n)]
    } else {
        decimal_of(n / 10).push(digit_char(n % 10))
    }
}

/// The canonical name of the cell in (zero-based) column `col`, row `row`.
pub open spec fn cell_name(col: nat, row: nat) -> Seq<char> {
    letters_of(col + 1) + decimal_of(row)
}

proof fn lemma_letters_of_correct(n: nat)
    ensures
        letters_value(letters_of(n)) == n,
        forall|i: int| 0 <= i < letters_of(n).len() ==> is_upper(#[trigger] letters_of(n)[i]),
        n >= 1 ==> letters_of(n).len() >= 1,
    decreases n,
{
    if n > 0 {
        let q = ((n - 1) / 26) as nat;
        let d = ((n - 1) % 26) as nat;
        lemma_letters_of_correct(q);
        vstd::arithmetic::div_mod::lemma_fundamental_div_mod(n as int - 1, 26);
        assert(letters_of(n).drop_last() =~= letters_of(q));
        assert(letter_value(letter_char(d)) == d + 1);
        assert(letters_value(letters_of(n)) == q * 26 + d + 1);
    }
}

proof fn lemma_decimal_of_correct(n: nat)
    ensures
        digits_value(decimal_of(n)) == n,
        forall|i: int| 0 <= i < decimal_of(n).len() ==> is_digit(#[trigger] decimal_of(n)[i]),
        decimal_of(n).len() >= 1,
    decreases n,
{
    if n < 10 {
        assert(decimal_of(n).drop_last() =~= Seq::<char>::empty());
        assert(decimal_of(n).last() == digit_char(n));
        assert(digit_value(digit_char(n)) == n);
        assert(digits_value(decimal_of(n)) == digits_value(Seq::<char>::empty()) * 10
            + digit_value(digit_char(n)));
    } else {
        lemma_decimal_of_correct(n / 10);
        vstd::arithmetic::div_mod::lemma_fundamental_div_mod(n as int, 10);
        assert(decimal_of(n).drop_last() =~= decimal_of(n / 10));
        assert(decimal_of(n).last() == digit_char(n % 10));
        assert(digit_value(digit_char(n % 10)) == n % 10);
        assert(digits_value(decimal_of(n)) == digits_value(decimal_of(n / 10)) * 10
            + digit_value(digit_char(n % 10)));
    }
}

/// Formatting then parsing is the identity: the canonical name of a cell
/// parses back to exactly its column and row, so the cells a range visits
/// are the cells its endpoints span.
pub proof fn lemma_cell_name_round_trip(col: u32, row: u32)
    ensures
        parse_cell(cell_name(col as nat, row as nat)) == Some((col, row)),
{
    let letters = letters_of(col as nat + 1);
    let digits = decimal_of(row as nat);
    let s = cell_name(col as nat, row as nat);
    let k = letters.len() as int;
    lemma_letters_of_correct(col as nat + 1);
    lemma_decimal_of_correct(row as nat);
    assert(s.subrange(0, k) =~= letters);
    assert(s.subrange(k, s.len() as int) =~= digits);
    assert(forall|i: int| 0 <= i < k ==> is_upper(s[i]));
    assert(is_digit(s[k]));
    assert(!is_upper(s[k]));
    lemma_upper_len_is(s, k);
}

/// The index of the first occurrence of `c` at or after `i`, or the length
/// when there is none.
pub open spec fn first_at(s: Seq<char>, c: char, i: int) -> int
    decreases s.len() - i when 0 <= i <= s.len()
{
    if i >= s.len() {
        s.len() as int
    } else if s[i] == c {
        i
    } else {
        first_at(s, c, i + 1)
    }
}

/// A range name: two cell names joined by `_`. A second `_` ends the second
/// name; anything after it is ignored.
pub open spec fn parse_range(s: Seq<char>) -> Option<((u32, u32), (u32, u32))> {
    let i = first_at(s, '_', 0);
    if i == s.len() {
        None
    } else {
        let j = first_at(s, '_', i + 1);
        match (parse_cell(s.subrange(0, i)), parse_cell(s.subrange(i + 1, j))) {
            (Some(a), Some(b)) => Some((a, b)),
            _ => None,
        }
    }
}

proof fn lemma_first_at_is(s: Seq<char>, c: char, k: int, i: int)
    requires
        0 <= k <= i <= s.len(),
        forall|m: int| k <= m < i ==> s[m] != c,
        i < s.len() ==> s[i] == c,
    ensures
        first_at(s, c, k) == i,
    decreases i - k,
{
    if k < i {
        lemma_first_at_is(s, c, k + 1, i);
    }
}

pub(crate) fn find_char_from(s: &str, n: usize, c: char, start: usize) -> (r: usize)
    requires
        n == s@.len(),
        start <= n,
    ensures
        r == first_at(s@, c, start as int),
        start <= r <= n,
{
    let mut i = start;
    loop
        invariant
            start <= i <= n,
            n == s@.len(),
            forall|m: int| start <= m < i ==> s@[m] != c,
        ensures
            start <= i <= n,
            forall|m: int| start <= m < i ==> s@[m] != c,
            i < n ==> s@[i as int] == c,
        decreases n - i,
    {
        if i >= n {
            break;
        }
        if s.get_char(i) == c {
            break;
        }
        i = i + 1;
    }
    proof {
        lemma_first_at_is(s@, c, start as int, i as int);
    }
    i
}

/// Parse a range name into its two endpoints; `None` where the text holds
/// no `_` or an endpoint is no cell name.
pub fn parse_range_name(s: &str) -> (r: Option<((u32, u32), (u32, u32))>)
    ensures
        r == parse_range(s@),
{
    let n = s.unicode_len();
    let i = find_char_from(s, n, '_', 0);
    if i == n {
        return None;
    }
    let j = find_char_from(s, n, '_', i + 1);
    let left = s.substring_char(0, i);
    let right = s.substring_char(i + 1, j);
    match (parse_cell_name(left), parse_cell_name(right)) {
        (Some(a), Some(b)) => Some((a, b)),
        _ => None,
    }
}

/// Relies on `String::push`: appends one character at the end.
#[verifier::external_body]
fn push_char(s: &mut String, c: char)
    ensures
        final(s)@ == old(s)@.push(c),
{
    s.push(c);
}

fn push_column_letters(s: &mut String, n: u64)
    ensures
        final(s)@ == old(s)@ + letters_of(n as nat),
    decreases n,
{
    if n == 0 {
        assert(old(s)@ + letters_of(0) =~= old(s)@);
    } else {
        let q = (n - 1) / 26;
        let d = ((n - 1) % 26) as u8;
        push_column_letters(s, q);
        push_char(s, (65 + d) as char);
        assert(old(s)@ + letters_of(n as nat) =~= (old(s)@ + letters_of(q as nat)).push(
            letter_char(d as nat),
        ));
    }
}

fn push_decimal(s: &mut String, n: u32)
    ensures
        final(s)@ == old(s)@ + decimal_of(n as nat),
    decreases n,
{
    if n < 10 {
        push_char(s, (48 + n as u8) as char);
        assert(old(s)@ + decimal_of(n as nat) =~= old(s)@.push(digit_char(n as nat)));
    } else {
        push_decimal(s, n / 10);
        push_char(s, (48 + (n % 10) as u8) as char);
        assert(old(s)@ + decimal_of(n as nat) =~= (old(s)@ + decimal_of(n as nat / 10)).push(
            digit_char(n as nat % 10),
        ));
    }
}

/// The canonical name of the cell at `col` (zero-based), `row`.
pub fn cell_name_of(col: u32, row: u32) -> (r: String)
    ensures
        r@ == cell_name(col as nat, row as nat),
{
    let mut s = String::new();
    push_column_letters(&mut s, col as u64 + 1);
    push_decimal(&mut s, row);
    assert(s@ =~= cell_name(col as nat, row as nat));
    s
}

proof fn lemma_upper_len_is(s: Seq<char>, k: int)
    requires
        0 <= k <= s.len(),
        forall|i: int| 0 <= i < k ==> is_upper(s[i]),
        k < s.len() ==> !is_upper(s[k]),
    ensures
        upper_len(s) == k,
    decreases s.len(),
{
    if s.len() > 0 && is_upper(s[0]) {
        let t = s.subrange(1, s.len() as int);
        assert(forall|i: int| 0 <= i < k - 1 ==> is_upper(t[i]));
        lemma_upper_len_is(t, k - 1);
    }
}

proof fn lemma_letters_value_monotone(s: Seq<char>, i: int, j: int)
    requires
        0 <= i <= j <= s.len(),
    ensures
        letters_value(s.subrange(0, i)) <= letters_value(s.subrange(0, j)),
    decreases j - i,
{
    if i < j {
        let p = s.subrange(0, j - 1);
        assert(s.subrange(0, j).drop_last() =~= p);
        lemma_letters_value_monotone(s, i, j - 1);
    }
}

proof fn lemma_digits_value_monotone(s: Seq<char>, k: int, i: int, j: int)
    requires
        0 <= k <= i <= j <= s.len(),
    ensures
        digits_value(s.subrange(k, i)) <= digits_value(s.subrange(k, j)),
    decreases j - i,
{
    if i < j {
        let p = s.subrange(k, j - 1);
        assert(s.subrange(k, j).drop_last() =~= p);
        lemma_digits_value_monotone(s, k, i, j - 1);
    }
}

/// Parse a cell name into its zero-based column and its row number;
/// `None` where the text is not letters-then-digits or a part overflows.
pub fn parse_cell_name(s: &str) -> (r: Option<(u32, u32)>)
    ensures
        r == parse_cell(s@),
{
    let n = s.unicode_len();
    let mut k: usize = 0;
    loop
        invariant
            0 <= k <= n,
            n == s@.len(),
            forall|i: int| 0 <= i < k ==> is_upper(s@[i]),
        ensures
            0 <= k <= n,
            forall|i: int| 0 <= i < k ==> is_upper(s@[i]),
            k < n ==> !is_upper(s@[k as int]),
        decreases n - k,
    {
        if k >= n {
            break;
        }
        let c = s.get_char(k) as u32;
        if !(65 <= c && c <= 90) {
            break;
        }
        k = k + 1;
    }
    proof {
        lemma_upper_len_is(s@, k as int);
    }
    if k == 0 || k == n {
        return None;
    }
    let mut v: u64 = 0;
    let mut i: usize = 0;
    while i < k
        invariant
            0 <= i <= k < n == s@.len(),
            1 <= k,
            upper_len(s@) == k,
            forall|j: int| 0 <= j < k ==> is_upper(s@[j]),
            v == letters_value(s@.subrange(0, i as int)),
            v <= 0x1_0000_0000,
        decreases k - i,
    {
        let c = s.get_char(i) as u32;
        proof {
            assert(s@.subrange(0, i + 1).drop_last() =~= s@.subrange(0, i as int));
        }
        v = v * 26 + (c - 64) as u64;
        i = i + 1;
        if v > 0x1_0000_0000 {
            proof {
                lemma_letters_value_monotone(s@, i as int, k as int);
            }
            return None;
        }
    }
    let col = (v - 1) as u32;
    let mut w: u64 = 0;
    let mut j: usize = k;
    while j < n
        invariant
            k <= j <= n == s@.len(),
            1 <= k < n,
            upper_len(s@) == k,
            letters_value(s@.subrange(0, k as int)) <= 0x1_0000_0000,
            v == letters_value(s@.subrange(0, k as int)),
            forall|m: int| k <= m < j ==> is_digit(s@[m]),
            w == digits_value(s@.subrange(k as int, j as int)),
            w <= 0xFFFF_FFFF,
        decreases n - j,
    {
        let c = s.get_char(j) as u32;
        if !(48 <= c && c <= 57) {
            proof {
                assert(!is_digit(s@.subrange(k as int, s@.len() as int)[j - k]));
            }
            return None;
        }
        proof {
            assert(s@.subrange(k as int, j + 1).drop_last() =~= s@.subrange(k as int, j as int));
        }
        w = w * 10 + (c - 48) as u64;
        j = j + 1;
        if w > 0xFFFF_FFFF {
            proof {
                lemma_digits_value_monotone(s@, k as int, j as int, n as int);
            }
            return None;
        }
    }
    proof {
        assert(letters_value(s@.subrange(0, k as int)) >= 1) by {
            lemma_letters_value_monotone(s@, 1, k as int);
            assert(s@.subrange(0, 1).drop_last() =~= Seq::<char>::empty());
        }
    }
    Some((col, w as u32))
}

} // verus!
