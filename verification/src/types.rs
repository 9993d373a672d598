//! Cell coordinates, ranges, values and the result records of the tools.

use vstd::prelude::*;
use crate::error::SheetsError;
use crate::text;
use crate::text::{
    ascii_char, char_to_upper, chars_of, code_point, decimal_string, parse_decimal_u32, push_hex2,
};

verus! {

/// Excel column letters of a zero-based column index: 0 is `A`, 25 is `Z`,
/// 26 is `AA` (bijective base 26).
pub open spec fn column_letters(n: nat) -> Seq<char>
    decreases n,
{
    if n < 26 {
        seq![text::letter(n as int)]
    } else {
        column_letters((n / 26 - 1) as nat).push(text::letter((n % 26) as int))
    }
}

/// Convert zero-based column index to Excel-style letters.
/// 0→"A", 25→"Z", 26→"AA", etc.
pub fn col_index_to_letter(index: u32) -> (s: String)
    ensures
        s@ == column_letters(index as nat),
{
    let mut digits: Vec<char> = Vec::new();
    let mut n: u32 = index;
    loop
        invariant_except_break
            column_letters(index as nat) == column_letters(n as nat) + digits@.reverse(),
        ensures
            column_letters(index as nat) == digits@.reverse(),
        decreases n,
    {
        let remainder: u32 = n % 26;
        let ghost old_digits = digits@;
        digits.push(ascii_char((65 + remainder) as u8));
        assert(digits@.reverse() =~= seq![text::letter(remainder as int)] + old_digits.reverse());
        if n / 26 == 0 {
            assert(column_letters(index as nat) == digits@.reverse());
            break;
        }
        assert(column_letters(n as nat) == column_letters((n / 26 - 1) as nat).push(text::letter((n % 26) as int)));
        n = n / 26 - 1;
    }
    let mut result = String::new();
    let mut i: usize = digits.len();
    while i > 0
        invariant
            i <= digits.len(),
            result@ == digits@.reverse().take(digits.len() - i),
            column_letters(index as nat) == digits@.reverse(),
        decreases i,
    {
        i = i - 1;
        result.push(digits[i]);
        assert(digits@.reverse().take(digits.len() - i) =~= digits@.reverse().take(digits.len() - i - 1).push(digits@[i as int]));
    }
    assert(digits@.reverse().take(digits.len() as int) =~= digits@.reverse());
    result
}


/// Whether `c` is an ASCII letter of either case.
pub open spec fn is_column_char(c: char) -> bool {
    text::is_ascii_upper(text::to_upper(c))
}

/// Position of the first ASCII digit of `s`, or `s.len()` when there is none.
pub open spec fn first_digit(s: Seq<char>) -> int
    decreases s.len(),
{
    if s.len() == 0 || text::is_ascii_digit(s[0]) {
        0
    } else {
        1 + first_digit(s.drop_first())
    }
}

/// Position of the first character of `s` that is not an ASCII letter, or
/// `s.len()` when there is none.
pub open spec fn first_non_letter(s: Seq<char>) -> int
    decreases s.len(),
{
    if s.len() == 0 || !is_column_char(s[0]) {
        0
    } else {
        1 + first_non_letter(s.drop_first())
    }
}

/// The bijective base-26 value of a run of column letters: `A` is 1, `Z`
/// is 26, `AA` is 27.
pub open spec fn letters_value(s: Seq<char>) -> nat
    decreases s.len(),
{
    if s.len() == 0 {
        0
    } else {
        letters_value(s.drop_last()) * 26 + ((text::to_upper(s.last()) as int - 64) as nat)
    }
}

/// The error text for a column character that is not a letter.
pub open spec fn invalid_column_char_text(c: char) -> Seq<char> {
    "Invalid column character: '"@ + seq![text::to_upper(c)] + "'"@
}

/// What converting column letters to a zero-based index gives: the index,
/// or the text of the error for the first character that is not a letter.
pub open spec fn column_index_outcome(s: Seq<char>) -> Result<nat, Seq<char>> {
    let j = first_non_letter(s);
    if j < s.len() {
        Err(invalid_column_char_text(s[j]))
    } else {
        Ok((letters_value(s) - 1) as nat)
    }
}

/// Whether converting the letters `s` overflows 32 bits before it meets a
/// character that is not a letter.
pub open spec fn column_value_overflows(s: Seq<char>) -> bool {
    letters_value(s.take(first_non_letter(s))) > u32::MAX
}

/// Whether parsing `s` as a coordinate reaches a column part whose letters
/// overflow 32 bits.
pub open spec fn coordinate_overflows(s: Seq<char>) -> bool {
    let t = text::trimmed(s);
    let i = first_digit(t);
    0 < i < t.len() && column_value_overflows(t.take(i))
}

/// `'<text>'` followed by `rest`.
pub open spec fn quoted(t: Seq<char>, rest: Seq<char>) -> Seq<char> {
    "'"@ + t + rest
}

/// What parsing `s` as a cell coordinate gives: the column letters (in
/// uppercase), the zero-based column index and the row, or the text of the
/// `InvalidCoordinate` error.
pub open spec fn coordinate_outcome(s: Seq<char>) -> Result<(Seq<char>, nat, nat), Seq<char>> {
    let t = text::trimmed(s);
    let i = first_digit(t);
    if i == t.len() {
        Err(quoted(t, "' has no row number"@))
    } else if i == 0 {
        Err(quoted(t, "' has no column letters"@))
    } else {
        let col = t.take(i);
        let row = t.skip(i);
        match column_index_outcome(col) {
            Err(m) => Err(m),
            Ok(index) => if !(text::all_digits(row) && text::digits_value(row) <= u32::MAX) {
                Err(quoted(t, "' has an invalid row number"@))
            } else if text::digits_value(row) == 0 {
                Err(quoted(t, "' row must be >= 1"@))
            } else {
                Ok((text::ascii_upper(col), index, text::digits_value(row)))
            },
        }
    }
}

/// A single cell coordinate, e.g. `A1`, `AA42`.
///
/// Parses the letter(s) into a zero-based column index and
/// the digits into a one-based row number.
#[derive(Debug, Clone, PartialEq, Eq)]
pub struct CellCoordinate {
    /// Column letters, e.g. `"A"`, `"AA"`.
    pub column: String,
    /// Zero-based column index: A=0, B=1, ... Z=25, AA=26, ...
    pub column_index: u32,
    /// One-based row number.
    pub row: u32,
}

/// The text of a coordinate: its column letters and then its row.
pub open spec fn coordinate_text(c: CellCoordinate) -> Seq<char> {
    c.column@ + text::decimal(c.row as nat)
}

/// Whether a parse result agrees with what parsing `s` gives.
pub open spec fn coordinate_parsed(s: Seq<char>, r: Result<CellCoordinate, SheetsError>) -> bool {
    match coordinate_outcome(s) {
        Ok((col, index, row)) => r matches Ok(c) && c.column@ == col && c.column_index == index
            && c.row == row,
        Err(m) => match r {
            Err(e) => is_invalid_coordinate(e, m),
            Ok(_) => false,
        },
    }
}

/// Whether an error carries the `InvalidCoordinate` text `m`.
pub open spec fn is_invalid_coordinate(e: SheetsError, m: Seq<char>) -> bool {
    match e {
        SheetsError::InvalidCoordinate(t) => t@ == m,
        _ => false,
    }
}

/// Whether a conversion result agrees with `column_index_outcome(s)`.
pub open spec fn column_index_agrees(s: Seq<char>, r: Result<u32, SheetsError>) -> bool {
    match column_index_outcome(s) {
        Ok(index) => r == Ok::<u32, SheetsError>(index as u32),
        Err(m) => match r {
            Err(e) => is_invalid_coordinate(e, m),
            Ok(_) => false,
        },
    }
}

proof fn lemma_first_digit(s: Seq<char>, i: int)
    requires
        0 <= i <= s.len(),
        forall|j: int| 0 <= j < i ==> !text::is_ascii_digit(#[trigger] s[j]),
        i == s.len() || text::is_ascii_digit(s[i]),
    ensures
        first_digit(s) == i,
    decreases i,
{
    if i > 0 {
        assert forall|j: int| 0 <= j < i - 1 implies !text::is_ascii_digit(#[trigger] s.drop_first()[j]) by {
            assert(s.drop_first()[j] == s[j + 1]);
        }
        lemma_first_digit(s.drop_first(), i - 1);
    }
}

proof fn lemma_first_non_letter(s: Seq<char>, i: int)
    requires
        0 <= i <= s.len(),
        forall|j: int| 0 <= j < i ==> is_column_char(#[trigger] s[j]),
        i == s.len() || !is_column_char(s[i]),
    ensures
        first_non_letter(s) == i,
    decreases i,
{
    if i > 0 {
        assert forall|j: int| 0 <= j < i - 1 implies is_column_char(#[trigger] s.drop_first()[j]) by {
            assert(s.drop_first()[j] == s[j + 1]);
        }
        lemma_first_non_letter(s.drop_first(), i - 1);
    }
}

proof fn lemma_first_non_letter_bounds(s: Seq<char>)
    ensures
        0 <= first_non_letter(s) <= s.len(),
        forall|j: int| 0 <= j < first_non_letter(s) ==> is_column_char(#[trigger] s[j]),
        first_non_letter(s) < s.len() ==> !is_column_char(s[first_non_letter(s)]),
    decreases s.len(),
{
    if s.len() > 0 && is_column_char(s[0]) {
        lemma_first_non_letter_bounds(s.drop_first());
        assert forall|j: int| 0 <= j < first_non_letter(s) implies is_column_char(#[trigger] s[j]) by {
            if j > 0 {
                assert(s[j] == s.drop_first()[j - 1]);
            }
        }
    }
}

proof fn lemma_first_digit_bounds(s: Seq<char>)
    ensures
        0 <= first_digit(s) <= s.len(),
        forall|j: int| 0 <= j < first_digit(s) ==> !text::is_ascii_digit(#[trigger] s[j]),
        first_digit(s) < s.len() ==> text::is_ascii_digit(s[first_digit(s)]),
    decreases s.len(),
{
    if s.len() > 0 && !text::is_ascii_digit(s[0]) {
        lemma_first_digit_bounds(s.drop_first());
        assert forall|j: int| 0 <= j < first_digit(s) implies !text::is_ascii_digit(#[trigger] s[j]) by {
            if j > 0 {
                assert(s[j] == s.drop_first()[j - 1]);
            }
        }
    }
}

/// A run of letters is worth at least as much as any of its prefixes.
proof fn lemma_letters_value_prefix(s: Seq<char>, i: int)
    requires
        0 <= i <= s.len(),
        forall|j: int| 0 <= j < s.len() ==> is_column_char(#[trigger] s[j]),
    ensures
        letters_value(s.take(i)) <= letters_value(s),
    decreases s.len() - i,
{
    if i < s.len() {
        lemma_letters_value_prefix(s, i + 1);
        assert(s.take(i + 1).drop_last() =~= s.take(i));
        assert(is_column_char(s[i]));
    } else {
        assert(s.take(i) =~= s);
    }
}

/// Convert Excel-style column letters to zero-based index.
/// "A"→0, "Z"→25, "AA"→26, etc.
pub fn letter_to_col_index(s: &str) -> (r: Result<u32, SheetsError>)
    requires
        s@.len() > 0,
        !column_value_overflows(s@),
    ensures
        column_index_agrees(s@, r),
{
    let v = chars_of(s);
    let ghost sv = s@;
    let mut index: u32 = 0;
    let mut i: usize = 0;
    while i < v.len()
        invariant
            v@ == sv,
            sv == s@,
            sv.len() > 0,
            !column_value_overflows(sv),
            i <= v@.len(),
            forall|j: int| 0 <= j < i ==> is_column_char(#[trigger] sv[j]),
            index == letters_value(sv.take(i as int)),
        decreases v.len() - i,
    {
        let ch = char_to_upper(v[i]);
        let n = code_point(ch);
        assert(v@[i as int] == sv[i as int]);
        if n < 65 || n > 90 {
            proof {
                assert(!is_column_char(sv[i as int]));
                lemma_first_non_letter(sv, i as int);
            }
            let mut m = String::from_str("Invalid column character: '");
            m.push(ch);
            m.append("'");
            assert(m@ =~= invalid_column_char_text(sv[i as int]));
            return Err(SheetsError::InvalidCoordinate(m));
        }
        proof {
            assert(is_column_char(sv[i as int]));
            assert(sv.take(i + 1).drop_last() =~= sv.take(i as int));
            assert(letters_value(sv.take(i + 1)) == letters_value(sv.take(i as int)) * 26 + (n - 64));
            lemma_first_non_letter_bounds(sv);
            let k2 = first_non_letter(sv);
            if k2 <= i {
                assert(is_column_char(sv[k2]));
            }
            let p = sv.take(k2);
            assert forall|j: int| 0 <= j < p.len() implies is_column_char(#[trigger] p[j]) by {
                assert(p[j] == sv[j]);
            }
            lemma_letters_value_prefix(p, i + 1);
            assert(p.take(i + 1) =~= sv.take(i + 1));
        }
        index = index * 26 + (n - 64);
        i = i + 1;
    }
    proof {
        lemma_first_non_letter(sv, v@.len() as int);
        assert(sv.take(v@.len() as int) =~= sv);
    }
    Ok(index - 1)
}


/// All characters of `s` are uppercase ASCII letters.
pub open spec fn all_upper(s: Seq<char>) -> bool {
    forall|i: int| 0 <= i < s.len() ==> #[trigger] text::is_ascii_upper(s[i])
}

/// The letters of a column index are uppercase and read back as the index
/// plus one.
pub proof fn lemma_column_letters_value(n: nat)
    ensures
        column_letters(n).len() > 0,
        all_upper(column_letters(n)),
        letters_value(column_letters(n)) == n + 1,
    decreases n,
{
    let l = column_letters(n);
    if n < 26 {
        assert(l == seq![text::letter(n as int)]);
        assert(l.drop_last() =~= Seq::<char>::empty());
        assert(text::letter(n as int) as int == 65 + n);
        assert(letters_value(l) == letters_value(l.drop_last()) * 26 + ((text::to_upper(l.last()) as int - 64) as nat));
    } else {
        let q = (n / 26 - 1) as nat;
        lemma_column_letters_value(q);
        let p = column_letters(q);
        assert(l == p.push(text::letter((n % 26) as int)));
        assert(l.drop_last() =~= p);
        assert(text::letter((n % 26) as int) as int == 65 + n % 26);
        assert(letters_value(l) == letters_value(p) * 26 + (n % 26 + 1));
        assert((q + 1) * 26 + n % 26 == n) by (nonlinear_arith)
            requires q == n / 26 - 1, n >= 26;
        assert forall|i: int| 0 <= i < l.len() implies #[trigger] text::is_ascii_upper(l[i]) by {
            if i < p.len() {
                assert(l[i] == p[i]);
            }
        }
    }
}

/// A non-empty run of uppercase letters is worth at least one.
proof fn lemma_letters_value_positive(s: Seq<char>)
    requires
        s.len() > 0,
        all_upper(s),
    ensures
        letters_value(s) >= 1,
{
    assert(text::is_ascii_upper(s.last()));
}

/// Column letters and column indexes correspond one to one: the letters of
/// the index of an uppercase run are that run.
pub proof fn lemma_letters_roundtrip(s: Seq<char>)
    requires
        s.len() > 0,
        all_upper(s),
    ensures
        column_letters((letters_value(s) - 1) as nat) == s,
    decreases s.len(),
{
    let p = s.drop_last();
    let c = s.last();
    assert(text::is_ascii_upper(c));
    let k = c as int - 64;
    assert(text::to_upper(c) == c);
    assert(letters_value(s) == letters_value(p) * 26 + k);
    if p.len() == 0 {
        assert(letters_value(p) == 0);
        assert(text::letter(k - 1) == c);
        assert(s =~= seq![c]);
    } else {
        assert forall|i: int| 0 <= i < p.len() implies #[trigger] text::is_ascii_upper(p[i]) by {
            assert(p[i] == s[i]);
        }
        lemma_letters_roundtrip(p);
        lemma_letters_value_positive(p);
        let v = letters_value(p);
        let n = (letters_value(s) - 1) as nat;
        assert(n == v * 26 + (k - 1));
        assert(n / 26 == v && n % 26 == k - 1) by (nonlinear_arith)
            requires n == v * 26 + (k - 1), 0 <= k - 1 < 26;
        assert(n >= 26);
        assert(text::letter(k - 1) == c);
        assert(column_letters(n) == column_letters((v - 1) as nat).push(text::letter(k - 1)));
        assert(s =~= p.push(c));
    }
}


/// A string holding the uppercase form of the letters `v[0..n]`.
fn upper_letters(v: &Vec<char>, n: usize) -> (s: String)
    requires
        n <= v@.len(),
    ensures
        s@ == text::ascii_upper(v@.take(n as int)),
{
    let mut s = String::new();
    let mut i: usize = 0;
    while i < n
        invariant
            i <= n <= v@.len(),
            s@ == text::ascii_upper(v@.take(i as int)),
        decreases n - i,
    {
        s.push(char_to_upper(v[i]));
        i = i + 1;
        assert(s@ =~= text::ascii_upper(v@.take(i as int)));
    }
    s
}

/// The error for a coordinate text `t` followed by `rest`.
fn quoted_error(t: &str, rest: &str) -> (e: SheetsError)
    ensures
        is_invalid_coordinate(e, quoted(t@, rest@)),
{
    let mut m = String::from_str("'");
    m.append(t);
    m.append(rest);
    assert(m@ =~= quoted(t@, rest@));
    SheetsError::InvalidCoordinate(m)
}

/// Position of the first ASCII digit of `v`, or its length.
fn find_first_digit(v: &Vec<char>) -> (i: usize)
    ensures
        i == first_digit(v@),
        i <= v@.len(),
{
    let mut i: usize = 0;
    while i < v.len() && !(48 <= code_point(v[i]) && code_point(v[i]) <= 57)
        invariant
            i <= v@.len(),
            forall|j: int| 0 <= j < i ==> !text::is_ascii_digit(#[trigger] v@[j]),
        decreases v.len() - i,
    {
        i = i + 1;
    }
    proof {
        lemma_first_digit(v@, i as int);
    }
    i
}

impl CellCoordinate {
    /// Build directly from known parts.
    pub fn from_index(col_index: u32, row: u32) -> (c: Self)
        ensures
            c.column@ == column_letters(col_index as nat),
            c.column_index == col_index,
            c.row == row,
    {
        let column = col_index_to_letter(col_index);
        CellCoordinate { column, column_index: col_index, row }
    }

    /// Parses a coordinate such as `A1`, `aa42` or ` Z99 `: leading and
    /// trailing white space is ignored, the letters give the zero-based
    /// column index and the digits the one-based row.
    pub fn parse(s: &str) -> (r: Result<CellCoordinate, SheetsError>)
        requires
            !coordinate_overflows(s@),
        ensures
            coordinate_parsed(s@, r),
    {
        let t = text::trim(s);
        let v = chars_of(t);
        let i = find_first_digit(&v);
        if i == v.len() {
            return Err(quoted_error(t, "' has no row number"));
        }
        if i == 0 {
            return Err(quoted_error(t, "' has no column letters"));
        }
        let col_part = t.substring_char(0, i);
        assert(col_part@ =~= t@.take(i as int));
        let col_index = match letter_to_col_index(col_part) {
            Ok(index) => index,
            Err(e) => {
                return Err(e);
            },
        };
        let row = match parse_decimal_u32(v.as_slice(), i, v.len()) {
            Some(row) => row,
            None => {
                assert(v@.subrange(i as int, v@.len() as int) =~= t@.skip(i as int));
                return Err(quoted_error(t, "' has an invalid row number"));
            },
        };
        assert(v@.subrange(i as int, v@.len() as int) =~= t@.skip(i as int));
        if row == 0 {
            return Err(quoted_error(t, "' row must be >= 1"));
        }
        proof {
            let col = t@.take(i as int);
            lemma_first_non_letter_bounds(col);
            assert(col.take(col.len() as int) =~= col);
            assert(v@.take(i as int) =~= col);
        }
        Ok(CellCoordinate { column: upper_letters(&v, i), column_index: col_index, row })
    }

    /// The coordinate's text, e.g. `AA42`.
    pub fn to_string(&self) -> (s: String)
        ensures
            s@ == coordinate_text(*self),
    {
        let mut s = self.column.clone();
        let digits = decimal_string(self.row);
        s.append(digits.as_str());
        s
    }
}

/// Whether parsing `s` as a coordinate would overflow the column index
/// (inputs that `CellCoordinate::parse` does not take).
pub fn coordinate_overflows_in(s: &str) -> (b: bool)
    ensures
        b == coordinate_overflows(s@),
{
    let t = text::trim(s);
    let v = chars_of(t);
    let i = find_first_digit(&v);
    if i == 0 || i == v.len() {
        return false;
    }
    let ghost col = t@.take(i as int);
    let mut value: u64 = 0;
    let mut j: usize = 0;
    while j < i
        invariant
            0 < i < v@.len(),
            v@ == t@,
            t@ == text::trimmed(s@),
            i == first_digit(t@),
            col == t@.take(i as int),
            j <= i,
            forall|k: int| 0 <= k < j ==> is_column_char(#[trigger] col[k]),
            value == letters_value(col.take(j as int)),
            value <= u32::MAX,
        decreases i - j,
    {
        let n = code_point(char_to_upper(v[j]));
        assert(v@[j as int] == col[j as int]);
        if n < 65 || n > 90 {
            proof {
                lemma_first_non_letter(col, j as int);
            }
            return false;
        }
        assert(col.take(j + 1).drop_last() =~= col.take(j as int));
        let next: u64 = value * 26 + (n - 64) as u64;
        j = j + 1;
        if next > 0xFFFF_FFFF {
            proof {
                lemma_first_non_letter_bounds(col);
                let k = first_non_letter(col);
                if k < j {
                    assert(is_column_char(col[k]));
                }
                let p = col.take(k);
                assert forall|m: int| 0 <= m < p.len() implies is_column_char(#[trigger] p[m]) by {
                    assert(p[m] == col[m]);
                }
                lemma_letters_value_prefix(p, j as int);
                assert(p.take(j as int) =~= col.take(j as int));
            }
            return true;
        }
        value = next;
    }
    proof {
        lemma_first_non_letter(col, i as int);
        assert(col.take(i as int) =~= col);
    }
    false
}


/// The text of uppercase column letters followed by the decimal digits of a
/// row parses back to those letters, their index and the row.
proof fn lemma_letters_and_row_parse(col: Seq<char>, row: nat)
    requires
        col.len() > 0,
        all_upper(col),
        letters_value(col) <= u32::MAX,
        1 <= row <= u32::MAX,
    ensures
        coordinate_outcome(col + text::decimal(row)) == Ok::<(Seq<char>, nat, nat), Seq<char>>(
            (col, (letters_value(col) - 1) as nat, row),
        ),
        !coordinate_overflows(col + text::decimal(row)),
{
    let d = text::decimal(row);
    text::lemma_decimal_digits(row);
    let x = col + d;
    assert(text::is_ascii_upper(col[0]));
    assert(x[0] == col[0]);
    assert(!text::is_white_space(x[0]));
    assert(x.last() == d.last());
    assert(text::is_ascii_digit(d[d.len() - 1]));
    assert(!text::is_white_space(x.last()));
    assert(text::trim_start(x) == x);
    assert(text::trim_end(x) == x);
    assert(text::trimmed(x) == x);
    assert forall|j: int| 0 <= j < col.len() implies !text::is_ascii_digit(#[trigger] x[j]) by {
        assert(x[j] == col[j]);
        assert(text::is_ascii_upper(col[j]));
    }
    assert(x[col.len() as int] == d[0]);
    assert(text::is_ascii_digit(d[0]));
    lemma_first_digit(x, col.len() as int);
    assert(x.take(col.len() as int) =~= col);
    assert(x.skip(col.len() as int) =~= d);
    assert forall|j: int| 0 <= j < col.len() implies is_column_char(#[trigger] col[j]) by {
        assert(text::is_ascii_upper(col[j]));
    }
    lemma_first_non_letter(col, col.len() as int);
    assert(col.take(col.len() as int) =~= col);
    assert forall|j: int| 0 <= j < col.len() implies #[trigger] text::to_upper(col[j]) == col[j] by {
        assert(text::is_ascii_upper(col[j]));
    }
    assert(text::ascii_upper(col) =~= col);
}

/// Law: column indexes and column letters correspond one to one. The
/// letters of index `n` are uppercase and read back as `n`; an uppercase run
/// of letters is the letters of the index it reads as.
pub proof fn law_column_letters_bijective(n: nat, s: Seq<char>)
    requires
        s.len() > 0,
        all_upper(s),
    ensures
        all_upper(column_letters(n)),
        column_index_outcome(column_letters(n)) == Ok::<nat, Seq<char>>(n),
        column_letters((letters_value(s) - 1) as nat) == s,
{
    lemma_column_letters_value(n);
    let l = column_letters(n);
    assert forall|j: int| 0 <= j < l.len() implies is_column_char(#[trigger] l[j]) by {
        assert(text::is_ascii_upper(l[j]));
    }
    lemma_first_non_letter(l, l.len() as int);
    lemma_letters_roundtrip(s);
}

/// Law: a coordinate built from a column index and a row prints as text that
/// parses back to the same coordinate. The last column index is left out:
/// its letters read as a value one past 32 bits, which parsing rejects.
pub proof fn law_from_index_round_trip(col_index: u32, row: u32)
    requires
        col_index < u32::MAX,
        row >= 1,
    ensures
        !coordinate_overflows(column_letters(col_index as nat) + text::decimal(row as nat)),
        coordinate_outcome(column_letters(col_index as nat) + text::decimal(row as nat)) == Ok::<
            (Seq<char>, nat, nat),
            Seq<char>,
        >((column_letters(col_index as nat), col_index as nat, row as nat)),
{
    lemma_column_letters_value(col_index as nat);
    lemma_letters_and_row_parse(column_letters(col_index as nat), row as nat);
}

/// Law: the text of a parsed coordinate (uppercase letters, then the row
/// without leading zeros) parses to the same coordinate.
pub proof fn law_coordinate_text_round_trip(s: Seq<char>)
    requires
        !coordinate_overflows(s),
        coordinate_outcome(s) is Ok,
    ensures
        ({
            let (col, index, row) = coordinate_outcome(s)->Ok_0;
            &&& !coordinate_overflows(col + text::decimal(row))
            &&& coordinate_outcome(col + text::decimal(row)) == coordinate_outcome(s)
        }),
{
    let t = text::trimmed(s);
    lemma_first_digit_bounds(t);
    let i = first_digit(t);
    let col = t.take(i);
    let row = text::digits_value(t.skip(i));
    lemma_first_non_letter_bounds(col);
    let up = text::ascii_upper(col);
    assert forall|j: int| 0 <= j < up.len() implies #[trigger] text::is_ascii_upper(up[j]) by {
        assert(is_column_char(col[j]));
    }
    lemma_upper_keeps_value(col);
    lemma_letters_value_bounded_by_prefix(col);
    lemma_letters_and_row_parse(up, row);
}

/// Uppercasing a run of letters keeps its value.
proof fn lemma_upper_keeps_value(s: Seq<char>)
    ensures
        letters_value(text::ascii_upper(s)) == letters_value(s),
    decreases s.len(),
{
    if s.len() > 0 {
        lemma_upper_keeps_value(s.drop_last());
        assert(text::ascii_upper(s).drop_last() =~= text::ascii_upper(s.drop_last()));
        let c = s.last();
        assert(text::ascii_upper(s).last() == text::to_upper(c));
        assert(text::to_upper(text::to_upper(c)) == text::to_upper(c));
    }
}

/// For a run with no non-letters, the overflow bound covers the whole run.
proof fn lemma_letters_value_bounded_by_prefix(s: Seq<char>)
    requires
        first_non_letter(s) == s.len(),
    ensures
        letters_value(s.take(first_non_letter(s))) == letters_value(s),
{
    assert(s.take(s.len() as int) =~= s);
}


// ── CellRange ─────────────────────────────────

/// Position of the first `c` in `s`, or `s.len()` when there is none.
pub open spec fn first_index_of(s: Seq<char>, c: char) -> int
    decreases s.len(),
{
    if s.len() == 0 || s[0] == c {
        0
    } else {
        1 + first_index_of(s.drop_first(), c)
    }
}

proof fn lemma_first_index_of(s: Seq<char>, c: char, i: int)
    requires
        0 <= i <= s.len(),
        forall|j: int| 0 <= j < i ==> #[trigger] s[j] != c,
        i == s.len() || s[i] == c,
    ensures
        first_index_of(s, c) == i,
    decreases i,
{
    if i > 0 {
        assert forall|j: int| 0 <= j < i - 1 implies #[trigger] s.drop_first()[j] != c by {
            assert(s.drop_first()[j] == s[j + 1]);
        }
        lemma_first_index_of(s.drop_first(), c, i - 1);
    }
}

/// Position of the first `c` in `v`, or its length.
fn find_char(v: &Vec<char>, c: char) -> (i: usize)
    ensures
        i == first_index_of(v@, c),
        i <= v@.len(),
{
    let mut i: usize = 0;
    while i < v.len() && v[i] != c
        invariant
            i <= v@.len(),
            forall|j: int| 0 <= j < i ==> #[trigger] v@[j] != c,
        decreases v.len() - i,
    {
        i = i + 1;
    }
    proof {
        lemma_first_index_of(v@, c, i as int);
    }
    i
}

/// How the text of a range splits: the sheet name (before the first `!`),
/// the start coordinate text and the end coordinate text (around the first
/// `:` after it); `None` when there is no `:`.
pub open spec fn range_parts(s: Seq<char>) -> Option<(Option<Seq<char>>, Seq<char>, Seq<char>)> {
    let t = text::trimmed(s);
    let b = first_index_of(t, '!');
    let sheet = if b < t.len() {
        Some(t.take(b))
    } else {
        None
    };
    let rp = if b < t.len() {
        t.skip(b + 1)
    } else {
        t
    };
    let k = first_index_of(rp, ':');
    if k == rp.len() {
        None
    } else {
        Some((sheet, rp.take(k), rp.skip(k + 1)))
    }
}

/// Whether parsing `s` as a range reaches a coordinate whose column letters
/// overflow 32 bits.
pub open spec fn range_overflows(s: Seq<char>) -> bool {
    match range_parts(s) {
        None => false,
        Some((_, a, b)) => coordinate_overflows(a) || (coordinate_outcome(a) is Ok
            && coordinate_overflows(b)),
    }
}

/// The top-left corner of the block spanned by two coordinates, each given
/// as `(letters, index, row)`: the letters and index of the leftmost column
/// and the topmost row.
pub open spec fn corner_min(a: (Seq<char>, nat, nat), b: (Seq<char>, nat, nat)) -> (
    Seq<char>,
    nat,
    nat,
) {
    (
        if a.1 <= b.1 {
            a.0
        } else {
            b.0
        },
        if a.1 <= b.1 {
            a.1
        } else {
            b.1
        },
        if a.2 <= b.2 {
            a.2
        } else {
            b.2
        },
    )
}

/// The bottom-right corner of the block spanned by two coordinates: the
/// letters and index of the rightmost column and the bottom row.
pub open spec fn corner_max(a: (Seq<char>, nat, nat), b: (Seq<char>, nat, nat)) -> (
    Seq<char>,
    nat,
    nat,
) {
    (
        if a.1 <= b.1 {
            b.0
        } else {
            a.0
        },
        if a.1 <= b.1 {
            b.1
        } else {
            a.1
        },
        if a.2 <= b.2 {
            b.2
        } else {
            a.2
        },
    )
}

/// What parsing `s` as a range gives: the sheet name and the top-left and
/// bottom-right corners of the block that the two coordinates span (in
/// whichever order they are written), or the text of the
/// `InvalidCoordinate` error.
pub open spec fn range_outcome(s: Seq<char>) -> Result<
    (Option<Seq<char>>, (Seq<char>, nat, nat), (Seq<char>, nat, nat)),
    Seq<char>,
> {
    match range_parts(s) {
        None => Err("Range '"@ + text::trimmed(s) + "' must contain ':'"@),
        Some((sheet, a, b)) => match coordinate_outcome(a) {
            Err(m) => Err(m),
            Ok(first) => match coordinate_outcome(b) {
                Err(m) => Err(m),
                Ok(second) => Ok((sheet, corner_min(first, second), corner_max(first, second))),
            },
        },
    }
}

/// A cell range, optionally prefixed with a sheet name.
///
/// Parses strings like `A1:B10` or `Sheet1!A1:Z100`.
#[derive(Debug, Clone, PartialEq, Eq)]
pub struct CellRange {
    /// Optional sheet name (everything before the `!`).
    pub sheet: Option<String>,
    /// Top-left coordinate.
    pub start: CellCoordinate,
    /// Bottom-right coordinate.
    pub end: CellCoordinate,
}

/// Whether a coordinate holds the parts `(letters, index, row)`.
pub open spec fn coordinate_is(c: CellCoordinate, parts: (Seq<char>, nat, nat)) -> bool {
    c.column@ == parts.0 && c.column_index == parts.1 && c.row == parts.2
}

/// The view of an optional string.
pub open spec fn opt_view(o: Option<String>) -> Option<Seq<char>> {
    match o {
        Some(s) => Some(s@),
        None => None,
    }
}

/// Whether a range parse result agrees with what parsing `s` gives.
pub open spec fn range_parsed(s: Seq<char>, r: Result<CellRange, SheetsError>) -> bool {
    match range_outcome(s) {
        Ok((sheet, start, end)) => match r {
            Ok(range) => opt_view(range.sheet) == sheet && coordinate_is(range.start, start)
                && coordinate_is(range.end, end),
            Err(_) => false,
        },
        Err(m) => match r {
            Err(e) => is_invalid_coordinate(e, m),
            Ok(_) => false,
        },
    }
}

/// The text of a range: `Sheet!A1:B2`, or `A1:B2` without a sheet.
pub open spec fn range_text_of(sheet: Option<Seq<char>>, start: Seq<char>, end: Seq<char>) -> Seq<char> {
    match sheet {
        Some(n) => n + "!"@ + start + ":"@ + end,
        None => start + ":"@ + end,
    }
}

/// The text of a range value.
pub open spec fn range_text(r: CellRange) -> Seq<char> {
    range_text_of(opt_view(r.sheet), coordinate_text(r.start), coordinate_text(r.end))
}

impl CellRange {
    /// Parses a range such as `A1:B10` or `Sheet1!A1:Z100`: leading and
    /// trailing white space is ignored, the text before the first `!` is the
    /// sheet name, and the rest holds two coordinates around the first `:`.
    /// The coordinates may name any two opposite corners (`B10:A1` too);
    /// `start` is always the top-left and `end` the bottom-right one.
    pub fn parse(s: &str) -> (r: Result<CellRange, SheetsError>)
        requires
            !range_overflows(s@),
        ensures
            range_parsed(s@, r),
            r matches Ok(range) ==> range.start.row <= range.end.row
                && range.start.column_index <= range.end.column_index,
    {
        let t = text::trim(s);
        let tv = chars_of(t);
        let bang = find_char(&tv, '!');
        let (sheet, range_part) = if bang < tv.len() {
            let name = t.substring_char(0, bang);
            (Some(String::from_str(name)), t.substring_char(bang + 1, tv.len()))
        } else {
            (None, t)
        };
        assert(range_part@ =~= (if bang < tv.len() {
            t@.skip(bang + 1)
        } else {
            t@
        }));
        let rv = chars_of(range_part);
        let colon = find_char(&rv, ':');
        if colon == rv.len() {
            let mut m = String::from_str("Range '");
            m.append(t);
            m.append("' must contain ':'");
            return Err(SheetsError::InvalidCoordinate(m));
        }
        let start_text = range_part.substring_char(0, colon);
        let end_text = range_part.substring_char(colon + 1, rv.len());
        assert(start_text@ =~= range_part@.take(colon as int));
        assert(end_text@ =~= range_part@.skip(colon + 1));
        let start = match CellCoordinate::parse(start_text) {
            Ok(c) => c,
            Err(e) => {
                return Err(e);
            },
        };
        let end = match CellCoordinate::parse(end_text) {
            Ok(c) => c,
            Err(e) => {
                return Err(e);
            },
        };
        let CellCoordinate { column: first_column, column_index: first_index, row: first_row } =
            start;
        let CellCoordinate { column: second_column, column_index: second_index, row: second_row } =
            end;
        let (left_column, left_index, right_column, right_index) = if first_index <= second_index {
            (first_column, first_index, second_column, second_index)
        } else {
            (second_column, second_index, first_column, first_index)
        };
        let (top_row, bottom_row) = if first_row <= second_row {
            (first_row, second_row)
        } else {
            (second_row, first_row)
        };
        Ok(
            CellRange {
                sheet,
                start: CellCoordinate {
                    column: left_column,
                    column_index: left_index,
                    row: top_row,
                },
                end: CellCoordinate {
                    column: right_column,
                    column_index: right_index,
                    row: bottom_row,
                },
            },
        )
    }

    /// The range's text, e.g. `Sheet1!A1:Z100`.
    pub fn to_string(&self) -> (s: String)
        ensures
            s@ == range_text(*self),
    {
        let mut s = String::new();
        match &self.sheet {
            Some(name) => {
                s.append(name.as_str());
                s.append("!");
            },
            None => {},
        }
        let a = self.start.to_string();
        let b = self.end.to_string();
        s.append(a.as_str());
        s.append(":");
        s.append(b.as_str());
        s
    }
}

/// Whether parsing `s` as a range would overflow a column index (inputs
/// that `CellRange::parse` does not take).
pub fn range_overflows_in(s: &str) -> (b: bool)
    ensures
        b == range_overflows(s@),
{
    let t = text::trim(s);
    let tv = chars_of(t);
    let bang = find_char(&tv, '!');
    let range_part = if bang < tv.len() {
        t.substring_char(bang + 1, tv.len())
    } else {
        t
    };
    assert(range_part@ =~= (if bang < tv.len() {
        t@.skip(bang + 1)
    } else {
        t@
    }));
    let rv = chars_of(range_part);
    let colon = find_char(&rv, ':');
    if colon == rv.len() {
        return false;
    }
    let start_text = range_part.substring_char(0, colon);
    let end_text = range_part.substring_char(colon + 1, rv.len());
    assert(start_text@ =~= range_part@.take(colon as int));
    assert(end_text@ =~= range_part@.skip(colon + 1));
    if coordinate_overflows_in(start_text) {
        return true;
    }
    match CellCoordinate::parse(start_text) {
        Ok(_) => coordinate_overflows_in(end_text),
        Err(_) => false,
    }
}


proof fn lemma_trim_start_shape(s: Seq<char>)
    ensures
        text::trim_start(s).len() == 0 || !text::is_white_space(text::trim_start(s)[0]),
    decreases s.len(),
{
    if s.len() > 0 && text::is_white_space(s[0]) {
        lemma_trim_start_shape(s.drop_first());
    }
}

proof fn lemma_trim_end_shape(u: Seq<char>)
    ensures
        text::trim_end(u) =~= u.take(text::trim_end(u).len() as int),
        text::trim_end(u).len() <= u.len(),
        text::trim_end(u).len() > 0 ==> !text::is_white_space(text::trim_end(u).last()),
        u.len() > 0 && !text::is_white_space(u[0]) ==> text::trim_end(u).len() > 0,
    decreases u.len(),
{
    if u.len() > 0 && text::is_white_space(u.last()) {
        lemma_trim_end_shape(u.drop_last());
        let r = text::trim_end(u.drop_last());
        assert forall|j: int| 0 <= j < r.len() implies r[j] == u.take(r.len() as int)[j] by {
            assert(u.drop_last().take(r.len() as int)[j] == u[j]);
        }
        if u.len() > 1 {
            assert(u.drop_last()[0] == u[0]);
        }
    }
}

/// The trimmed text starts and ends with characters that are not white space.
proof fn lemma_trimmed_shape(s: Seq<char>)
    ensures
        text::trimmed(s).len() > 0 ==> !text::is_white_space(text::trimmed(s)[0])
            && !text::is_white_space(text::trimmed(s).last()),
{
    let u = text::trim_start(s);
    lemma_trim_start_shape(s);
    lemma_trim_end_shape(u);
    let t = text::trim_end(u);
    if t.len() > 0 {
        assert(t[0] == u[0]);
    }
}

/// A text with no white space at either end is its own trimmed form.
proof fn lemma_trimmed_identity(x: Seq<char>)
    requires
        x.len() > 0,
        !text::is_white_space(x[0]),
        !text::is_white_space(x.last()),
    ensures
        text::trimmed(x) == x,
{
    assert(text::trim_start(x) == x);
    assert(text::trim_end(x) == x);
}

/// Letters or digits only.
pub open spec fn all_alnum(s: Seq<char>) -> bool {
    forall|i: int| 0 <= i < s.len() ==> text::is_ascii_upper(#[trigger] s[i]) || text::is_ascii_digit(s[i])
}

/// The parts `(letters, index, row)` of a parsed coordinate: uppercase
/// letters that read as the index plus one, and a row of at least one.
pub open spec fn corner_shape(p: (Seq<char>, nat, nat)) -> bool {
    &&& p.0.len() > 0
    &&& all_upper(p.0)
    &&& letters_value(p.0) <= u32::MAX
    &&& p.1 == letters_value(p.0) - 1
    &&& 1 <= p.2 <= u32::MAX
}

/// What a coordinate parses to has the shape of a parsed coordinate.
proof fn lemma_outcome_shape(a: Seq<char>)
    requires
        !coordinate_overflows(a),
        coordinate_outcome(a) is Ok,
    ensures
        corner_shape(coordinate_outcome(a)->Ok_0),
{
    let t = text::trimmed(a);
    lemma_first_digit_bounds(t);
    let i = first_digit(t);
    let col = t.take(i);
    lemma_first_non_letter_bounds(col);
    let (c, idx, r) = coordinate_outcome(a)->Ok_0;
    assert forall|j: int| 0 <= j < c.len() implies #[trigger] text::is_ascii_upper(c[j]) by {
        assert(is_column_char(col[j]));
    }
    lemma_upper_keeps_value(col);
    lemma_letters_value_bounded_by_prefix(col);
    lemma_letters_value_positive(c);
}

/// The text of a coordinate with the shape of a parsed one (its letters,
/// then its row) is made of letters and digits, starts with a letter, ends
/// with a digit, and parses back to the same parts.
proof fn lemma_corner_text(p: (Seq<char>, nat, nat))
    requires
        corner_shape(p),
    ensures
        ({
            let x = p.0 + text::decimal(p.2);
            &&& all_alnum(x)
            &&& text::is_ascii_digit(x.last())
            &&& text::is_ascii_upper(x[0])
            &&& coordinate_outcome(x) == Ok::<(Seq<char>, nat, nat), Seq<char>>(p)
            &&& !coordinate_overflows(x)
        }),
{
    let (c, i, r) = p;
    lemma_letters_and_row_parse(c, r);
    let d = text::decimal(r);
    text::lemma_decimal_digits(r);
    let x = c + d;
    assert forall|j: int| 0 <= j < x.len() implies text::is_ascii_upper(#[trigger] x[j])
        || text::is_ascii_digit(x[j]) by {
        if j < c.len() {
            assert(x[j] == c[j]);
        } else {
            assert(x[j] == d[j - c.len()]);
        }
    }
    assert(x.last() == d[d.len() - 1]);
    assert(x[0] == c[0]);
}

/// Law: the text of a parsed range (`start:end`, with the sheet name in
/// front where there is one) parses to the same sheet and corners.
pub proof fn law_range_text_round_trip(s: Seq<char>)
    requires
        !range_overflows(s),
        range_outcome(s) is Ok,
    ensures
        ({
            let (sheet, (c1, i1, r1), (c2, i2, r2)) = range_outcome(s)->Ok_0;
            let x = range_text_of(sheet, c1 + text::decimal(r1), c2 + text::decimal(r2));
            &&& !range_overflows(x)
            &&& range_outcome(x) == range_outcome(s)
        }),
{
    let (sheet, a, b) = range_parts(s)->Some_0;
    lemma_outcome_shape(a);
    lemma_outcome_shape(b);
    let (sheet2, p1, p2) = range_outcome(s)->Ok_0;
    lemma_corner_text(p1);
    lemma_corner_text(p2);
    let sa = p1.0 + text::decimal(p1.2);
    let sb = p2.0 + text::decimal(p2.2);
    let rp = sa + ":"@ + sb;
    let x = range_text_of(sheet, sa, sb);
    reveal_strlit(":");
    reveal_strlit("!");
    let t = text::trimmed(s);
    lemma_trimmed_shape(s);
    let bpos = first_index_of(t, '!');
    // where the ':' of rp is
    assert forall|j: int| 0 <= j < sa.len() implies #[trigger] rp[j] != ':' by {
        assert(rp[j] == sa[j]);
    }
    assert(rp[sa.len() as int] == ':');
    lemma_first_index_of(rp, ':', sa.len() as int);
    assert(rp.take(sa.len() as int) =~= sa);
    assert(rp.skip(sa.len() as int + 1) =~= sb);
    assert(x.last() == sb.last());
    match sheet {
        Some(n) => {
            lemma_first_index_of_bounds(t, '!');
            assert(n == t.take(bpos));
            assert(x =~= n + "!"@ + rp);
            assert forall|j: int| 0 <= j < n.len() implies #[trigger] x[j] != '!' by {
                assert(x[j] == n[j]);
                assert(n[j] == t[j]);
            }
            assert(x[n.len() as int] == '!');
            lemma_first_index_of(x, '!', n.len() as int);
            if n.len() > 0 {
                assert(x[0] == t[0]);
            }
            lemma_trimmed_identity(x);
            assert(x.take(n.len() as int) =~= n);
            assert(x.skip(n.len() as int + 1) =~= rp);
        },
        None => {
            assert(x == rp);
            assert forall|j: int| 0 <= j < x.len() implies #[trigger] x[j] != '!' by {
                if j < sa.len() {
                    assert(x[j] == sa[j]);
                } else if j > sa.len() {
                    assert(x[j] == sb[j - sa.len() - 1]);
                }
            }
            lemma_first_index_of(x, '!', x.len() as int);
            assert(x[0] == sa[0]);
            lemma_trimmed_identity(x);
        },
    }
    assert(corner_min(p1, p2) == p1);
    assert(corner_max(p1, p2) == p2);
}

/// Law: the block that two coordinates span does not depend on the order
/// in which they are written, and its first corner is above and to the left
/// of its second.
pub proof fn law_range_corners_any_order(a: Seq<char>, b: Seq<char>)
    requires
        !coordinate_overflows(a),
        !coordinate_overflows(b),
        coordinate_outcome(a) is Ok,
        coordinate_outcome(b) is Ok,
    ensures
        ({
            let p = coordinate_outcome(a)->Ok_0;
            let q = coordinate_outcome(b)->Ok_0;
            &&& corner_min(p, q) == corner_min(q, p)
            &&& corner_max(p, q) == corner_max(q, p)
            &&& corner_min(p, q).1 <= corner_max(p, q).1
            &&& corner_min(p, q).2 <= corner_max(p, q).2
        }),
{
    lemma_outcome_shape(a);
    lemma_outcome_shape(b);
    let p = coordinate_outcome(a)->Ok_0;
    let q = coordinate_outcome(b)->Ok_0;
    if p.1 == q.1 {
        lemma_letters_roundtrip(p.0);
        lemma_letters_roundtrip(q.0);
    }
}

proof fn lemma_first_index_of_bounds(s: Seq<char>, c: char)
    ensures
        0 <= first_index_of(s, c) <= s.len(),
        forall|j: int| 0 <= j < first_index_of(s, c) ==> #[trigger] s[j] != c,
        first_index_of(s, c) < s.len() ==> s[first_index_of(s, c)] == c,
    decreases s.len(),
{
    if s.len() > 0 && s[0] != c {
        lemma_first_index_of_bounds(s.drop_first(), c);
        assert forall|j: int| 0 <= j < first_index_of(s, c) implies #[trigger] s[j] != c by {
            if j > 0 {
                assert(s[j] == s.drop_first()[j - 1]);
            }
        }
    }
}


// ── CellValue and formatting ──────────────────

/// Unified representation of an Excel cell value.
///
/// A number is held as the bit pattern of its IEEE-754 double
/// (`f64::to_bits`); the library never computes with it. Equality compares
/// those bits, so `0.0` and `-0.0` differ and a NaN equals itself (as `f64`
/// values they compare the other way).
#[derive(Debug, Clone, PartialEq)]
pub enum CellValue {
    /// Empty cell (no value).
    Empty,
    /// Boolean value.
    Bool(bool),
    /// Numeric value, as the bits of an `f64`.
    Number(u64),
    /// String value.
    String(String),
    /// Excel error (e.g. `#REF!`, `#N/A`).
    Error(String),
}

impl CellValue {
    /// A copy of the value.
    pub fn duplicate(&self) -> (r: Self)
        ensures
            r == *self,
    {
        match self {
            CellValue::Empty => CellValue::Empty,
            CellValue::Bool(b) => CellValue::Bool(*b),
            CellValue::Number(n) => CellValue::Number(*n),
            CellValue::String(s) => CellValue::String(s.clone()),
            CellValue::Error(s) => CellValue::Error(s.clone()),
        }
    }
}

/// Visual styling of a cell.
///
/// Colors are in `"#RRGGBB"` hex format; the font size is held as the bit
/// pattern of its `f64` point size.
#[derive(Debug, Clone)]
pub struct CellFormat {
    /// Background / fill color as hex (e.g. `"#C0C0C0"`).
    pub background_color: Option<String>,
    /// Font color as hex.
    pub font_color: Option<String>,
    /// Whether the font is bold.
    pub bold: bool,
    /// Whether the font is italic.
    pub italic: bool,
    /// Font size in points, as the bits of an `f64`.
    pub font_size: Option<u64>,
    /// Number format code (e.g. `"0.00%"`, `"yyyy-mm-dd"`, `"#,##0"`).
    pub number_format: Option<String>,
    /// Horizontal alignment (e.g. `"Center"`, `"Right"`).
    pub horizontal_alignment: Option<String>,
    /// Whether the cell has any border (left, right, top, or bottom).
    pub has_border: bool,
}

/// The format with no styling at all.
pub open spec fn is_plain_format(f: CellFormat) -> bool {
    &&& f.background_color is None
    &&& f.font_color is None
    &&& !f.bold
    &&& !f.italic
    &&& f.font_size is None
    &&& f.number_format is None
    &&& f.horizontal_alignment is None
    &&& !f.has_border
}

impl CellFormat {
    /// The format with no styling at all.
    pub fn plain() -> (f: Self)
        ensures
            is_plain_format(f),
    {
        CellFormat {
            background_color: None,
            font_color: None,
            bold: false,
            italic: false,
            font_size: None,
            number_format: None,
            horizontal_alignment: None,
            has_border: false,
        }
    }
}

impl Default for CellFormat {
    fn default() -> (f: Self)
        ensures
            is_plain_format(f),
    {
        CellFormat::plain()
    }
}

/// A cell with its coordinate, value, and full formatting metadata.
///
/// Returned by `read_structure` for preview rows.
#[derive(Debug, Clone)]
pub struct CellWithFormat {
    /// Cell coordinate string, e.g. `"A1"`.
    pub coordinate: String,
    /// Cell value.
    pub value: CellValue,
    /// Cell visual formatting.
    pub format: CellFormat,
}

/// Sheet structure as returned by `read_structure`: the sheet name,
/// dimensions, and preview rows with full formatting.
#[derive(Debug, Clone)]
pub struct SheetStructure {
    /// Sheet name (e.g. `"Sheet1"`).
    pub name: String,
    /// Total number of columns in the sheet.
    pub total_columns: u32,
    /// Total number of rows in the sheet.
    pub total_rows: u32,
    /// Preview rows with cell values and formatting.
    pub preview: Vec<Vec<CellWithFormat>>,
}

/// Top-level response for `read_structure`: one [`SheetStructure`] per
/// sheet in the workbook.
#[derive(Debug, Clone)]
pub struct WorkbookStructure {
    /// All sheets in the workbook.
    pub sheets: Vec<SheetStructure>,
}

/// Response for `count_sheet_rows`.
#[derive(Debug, Clone)]
pub struct RowCount {
    /// Name of the queried sheet.
    pub sheet_name: String,
    /// Total number of rows in the sheet.
    pub total_rows: u32,
    /// Total number of columns in the sheet.
    pub total_columns: u32,
}

/// A cell in range output: value + optional formatting.
///
/// Formatting is only present when `include_format = true`.
#[derive(Debug, Clone)]
pub struct RangeCell {
    /// Cell value.
    pub value: CellValue,
    /// Cell formatting (only present when `include_format = true`).
    pub format: Option<CellFormat>,
}

/// Response for `get_sheet_range`.
#[derive(Debug, Clone)]
pub struct RangeData {
    /// Name of the sheet.
    pub sheet_name: String,
    /// The range string (e.g. `"A1:D100"`).
    pub range: String,
    /// 2D array of cells (row-major order).
    pub rows: Vec<Vec<RangeCell>>,
}

/// Response for `update_cell` / `update_cells`.
#[derive(Debug, Clone)]
pub struct UpdateResult {
    /// Number of cells updated.
    pub updated_count: u32,
    /// Name of the sheet that was modified.
    pub sheet_name: String,
    /// Path to the output file (where the result was written).
    pub output_path: String,
    /// The starting cell coordinate (for `update_cells` this is the destination).
    pub start: Option<String>,
    /// Number of rows affected (for `update_cells`).
    pub rows: Option<u32>,
    /// Number of columns affected (for `update_cells`).
    pub columns: Option<u32>,
}

/// `#RRGGBB` for an ARGB color: the red, green and blue bytes in uppercase
/// hexadecimal, the alpha byte left out.
pub open spec fn argb_hex_text(argb: u32) -> Seq<char> {
    "#"@ + text::hex2(((argb / 65536) % 256) as int) + text::hex2(((argb / 256) % 256) as int)
        + text::hex2((argb % 256) as int)
}

/// Convert an ARGB u32 to a hex string like `"#FF0000"`.
///
/// Strips the alpha byte and returns `None` if the input is zero (no color).
pub fn argb_to_hex(argb: u32) -> (r: Option<String>)
    ensures
        argb == 0 ==> r is None,
        argb != 0 ==> (r matches Some(s) && s@ == argb_hex_text(argb)),
{
    if argb == 0 {
        return None;
    }
    assert((argb >> 16u32) & 0xFFu32 == (argb / 65536) % 256) by (bit_vector);
    assert((argb >> 8u32) & 0xFFu32 == (argb / 256) % 256) by (bit_vector);
    assert(argb & 0xFFu32 == argb % 256) by (bit_vector);
    let r = (argb >> 16u32) & 0xFFu32;
    let g = (argb >> 8u32) & 0xFFu32;
    let b = argb & 0xFFu32;
    let mut s = String::from_str("#");
    push_hex2(&mut s, r);
    push_hex2(&mut s, g);
    push_hex2(&mut s, b);
    Some(s)
}

/// Law: the alpha byte of a color does not change its hex text.
pub proof fn law_argb_hex_ignores_alpha(x: u32, y: u32)
    requires
        x % 0x100_0000 == y % 0x100_0000,
    ensures
        argb_hex_text(x) == argb_hex_text(y),
{
    assert((x / 65536) % 256 == (y / 65536) % 256 && (x / 256) % 256 == (y / 256) % 256 && x % 256
        == y % 256) by (nonlinear_arith)
        requires
            x % 0x100_0000 == y % 0x100_0000,
    ;
}


// ── laws on column letters and coordinate text ──

/// `26` to the power `k`.
pub open spec fn pow26(k: nat) -> nat
    decreases k,
{
    if k == 0 {
        1
    } else {
        26 * pow26((k - 1) as nat)
    }
}

/// Indexes below `26^k - 1` have at most `k` letters.
proof fn lemma_column_letters_len(n: nat, k: nat)
    requires
        n + 1 < pow26(k),
    ensures
        column_letters(n).len() <= k,
    decreases n,
{
    if k == 0 {
        assert(pow26(0) == 1);
    } else if n >= 26 {
        let p = pow26((k - 1) as nat);
        assert(pow26(k) == 26 * p);
        assert(n / 26 < p) by (nonlinear_arith)
            requires
                n + 1 < 26 * p,
        ;
        let q = (n / 26 - 1) as nat;
        lemma_column_letters_len(q, (k - 1) as nat);
        assert(column_letters(n) == column_letters(q).push(text::letter((n % 26) as int)));
    }
}

/// Law: every 32-bit column index has between one and seven letters.
pub proof fn law_column_letters_at_most_seven(n: u32)
    ensures
        1 <= column_letters(n as nat).len() <= 7,
{
    reveal_with_fuel(pow26, 8);
    assert(pow26(7) == 8031810176);
    lemma_column_letters_len(n as nat, 7);
    lemma_column_letters_value(n as nat);
}

/// Whether `a` comes before `b` in dictionary order: at the first position
/// where they differ, `a` has the smaller character.
pub open spec fn lex_less_at(a: Seq<char>, b: Seq<char>, k: int) -> bool {
    &&& 0 <= k < a.len()
    &&& k < b.len()
    &&& a.take(k) == b.take(k)
    &&& (a[k] as int) < (b[k] as int)
}

/// Whether `a` comes before `b` in dictionary order.
pub open spec fn lex_less(a: Seq<char>, b: Seq<char>) -> bool {
    exists|k: int| #[trigger] lex_less_at(a, b, k)
}

/// Whether `a` comes before `b` in shortlex order: shorter first, and in
/// dictionary order among equally long ones.
pub open spec fn shortlex_less(a: Seq<char>, b: Seq<char>) -> bool {
    a.len() < b.len() || (a.len() == b.len() && lex_less(a, b))
}

/// Law: column letters keep the order of their indexes (shortlex order),
/// so distinct indexes have distinct letters.
pub proof fn law_column_letters_ordered(i: nat, j: nat)
    requires
        i < j,
    ensures
        shortlex_less(column_letters(i), column_letters(j)),
    decreases j,
{
    let a = column_letters(i);
    let b = column_letters(j);
    if j < 26 {
        assert(a == seq![text::letter(i as int)]);
        assert(b == seq![text::letter(j as int)]);
        assert(text::letter(i as int) as int == 65 + i);
        assert(text::letter(j as int) as int == 65 + j);
        assert(a.take(0) =~= b.take(0));
        assert(lex_less_at(a, b, 0));
    } else if i < 26 {
        let qj = (j / 26 - 1) as nat;
        lemma_column_letters_value(qj);
        assert(b == column_letters(qj).push(text::letter((j % 26) as int)));
        assert(a == seq![text::letter(i as int)]);
    } else {
        let qi = (i / 26 - 1) as nat;
        let qj = (j / 26 - 1) as nat;
        let pa = column_letters(qi);
        let pb = column_letters(qj);
        let ca = text::letter((i % 26) as int);
        let cb = text::letter((j % 26) as int);
        assert(a == pa.push(ca));
        assert(b == pb.push(cb));
        assert(i / 26 <= j / 26 && (i / 26 == j / 26 ==> i % 26 < j % 26)) by (nonlinear_arith)
            requires
                i < j,
        ;
        if qi == qj {
            assert(ca as int == 65 + i % 26);
            assert(cb as int == 65 + j % 26);
            let k = pa.len() as int;
            assert(a.take(k) =~= pa);
            assert(b.take(k) =~= pb);
            assert(lex_less_at(a, b, k));
        } else {
            law_column_letters_ordered(qi, qj);
            if pa.len() == pb.len() {
                let k = choose|k: int| #[trigger] lex_less_at(pa, pb, k);
                assert(a.take(k) =~= pa.take(k));
                assert(b.take(k) =~= pb.take(k));
                assert(a[k] == pa[k]);
                assert(b[k] == pb[k]);
                assert(lex_less_at(a, b, k));
            }
        }
    }
}

/// Whether `t` is the letters `l` followed by the digits `d`.
pub open spec fn splits_as(t: Seq<char>, l: Seq<char>, d: Seq<char>) -> bool {
    t == l + d
}

/// Whether every character is an ASCII letter.
pub open spec fn all_letters(s: Seq<char>) -> bool {
    forall|i: int| 0 <= i < s.len() ==> #[trigger] is_column_char(s[i])
}

/// Law: a coordinate parses exactly when its trimmed text is a run of ASCII
/// letters followed by a run of ASCII digits whose value is a row from 1 to
/// `u32::MAX`. Its column is then the letters in uppercase, its index the
/// letters' value less one, its row the digits' value, and its column is the
/// letters of its index.
pub proof fn law_coordinate_letters_then_digits(s: Seq<char>)
    requires
        !coordinate_overflows(s),
    ensures
        coordinate_outcome(s) is Ok <==> exists|l: Seq<char>, d: Seq<char>|
            #[trigger] splits_as(text::trimmed(s), l, d) && l.len() > 0 && all_letters(l) && d.len()
                > 0 && text::all_digits(d) && 1 <= text::digits_value(d) <= u32::MAX,
        coordinate_outcome(s) is Ok ==> ({
            let (col, index, row) = coordinate_outcome(s)->Ok_0;
            let t = text::trimmed(s);
            let l = t.take(first_digit(t));
            &&& col == text::ascii_upper(l)
            &&& index == letters_value(l) - 1
            &&& row == text::digits_value(t.skip(first_digit(t)))
            &&& col == column_letters(index)
        }),
{
    let t = text::trimmed(s);
    lemma_first_digit_bounds(t);
    let i = first_digit(t);
    let col = t.take(i);
    lemma_first_non_letter_bounds(col);
    if coordinate_outcome(s) is Ok {
        let d = t.skip(i);
        assert(t =~= col + d);
        assert(splits_as(t, col, d));
        assert forall|j: int| 0 <= j < col.len() implies #[trigger] is_column_char(col[j]) by {}
        let up = text::ascii_upper(col);
        assert forall|j: int| 0 <= j < up.len() implies #[trigger] text::is_ascii_upper(up[j]) by {
            assert(is_column_char(col[j]));
        }
        lemma_upper_keeps_value(col);
        lemma_letters_roundtrip(up);
    }
    if exists|l: Seq<char>, d: Seq<char>|
        #[trigger] splits_as(t, l, d) && l.len() > 0 && all_letters(l) && d.len() > 0
            && text::all_digits(d) && 1 <= text::digits_value(d) <= u32::MAX {
        let (l, d) = choose|l: Seq<char>, d: Seq<char>|
            #[trigger] splits_as(t, l, d) && l.len() > 0 && all_letters(l) && d.len() > 0
                && text::all_digits(d) && 1 <= text::digits_value(d) <= u32::MAX;
        assert forall|j: int| 0 <= j < l.len() implies !text::is_ascii_digit(#[trigger] t[j]) by {
            assert(t[j] == l[j]);
            assert(is_column_char(l[j]));
        }
        assert(t[l.len() as int] == d[0]);
        assert(text::is_ascii_digit(d[0]));
        lemma_first_digit(t, l.len() as int);
        assert(t.take(i) =~= l);
        assert(t.skip(i) =~= d);
        lemma_first_non_letter(l, l.len() as int);
    }
}

} // verus!
