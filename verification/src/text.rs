//! Character-level helpers shared by the parsers and formatters: ASCII
//! classes, decimal and hexadecimal numerals, trimming and joining.

use vstd::prelude::*;

verus! {

/// `String::push` appends one character at the end.
pub assume_specification[ std::string::String::push ](s: &mut std::string::String, ch: char)
    ensures
        final(s)@ == old(s)@.push(ch),
;

// ── character classes ─────────────────────────

/// The character whose code point is `n`.
pub open spec fn char_of(n: int) -> char {
    n as char
}

/// The uppercase ASCII letter at position `d` of the alphabet.
pub open spec fn letter(d: int) -> char {
    char_of(65 + d)
}

/// The decimal digit character for `d < 10`.
pub open spec fn digit(d: int) -> char {
    char_of(48 + d)
}

/// `char::is_ascii_digit`.
pub open spec fn is_ascii_digit(c: char) -> bool {
    48 <= (c as int) <= 57
}

/// `char::is_ascii_uppercase`.
pub open spec fn is_ascii_upper(c: char) -> bool {
    65 <= (c as int) <= 90
}

/// `char::is_ascii_lowercase`.
pub open spec fn is_ascii_lower(c: char) -> bool {
    97 <= (c as int) <= 122
}

/// `char::to_ascii_uppercase`: ASCII lowercase letters become uppercase,
/// every other character is kept.
pub open spec fn to_upper(c: char) -> char {
    if is_ascii_lower(c) {
        char_of(c as int - 32)
    } else {
        c
    }
}

/// `char::to_ascii_lowercase`.
pub open spec fn to_lower(c: char) -> char {
    if is_ascii_upper(c) {
        char_of(c as int + 32)
    } else {
        c
    }
}

/// The characters of the Unicode `White_Space` property (PropList.txt),
/// which is what `char::is_whitespace` and `str::trim` go by.
pub open spec fn is_white_space(c: char) -> bool {
    let n = c as int;
    ||| 9 <= n <= 13
    ||| n == 32
    ||| n == 0x85
    ||| n == 0xA0
    ||| n == 0x1680
    ||| 0x2000 <= n <= 0x200A
    ||| n == 0x2028
    ||| n == 0x2029
    ||| n == 0x202F
    ||| n == 0x205F
    ||| n == 0x3000
}

/// `s` without its leading white space.
pub open spec fn trim_start(s: Seq<char>) -> Seq<char>
    decreases s.len(),
{
    if s.len() > 0 && is_white_space(s[0]) {
        trim_start(s.drop_first())
    } else {
        s
    }
}

/// `s` without its trailing white space.
pub open spec fn trim_end(s: Seq<char>) -> Seq<char>
    decreases s.len(),
{
    if s.len() > 0 && is_white_space(s.last()) {
        trim_end(s.drop_last())
    } else {
        s
    }
}

/// `s` without leading and trailing white space.
pub open spec fn trimmed(s: Seq<char>) -> Seq<char> {
    trim_end(trim_start(s))
}

/// Whether `c` has the Unicode `White_Space` property.
pub fn white_space(c: char) -> (b: bool)
    ensures
        b == is_white_space(c),
{
    let n = c as u32;
    (9 <= n && n <= 13) || n == 32 || n == 0x85 || n == 0xA0 || n == 0x1680 || (0x2000 <= n && n
        <= 0x200A) || n == 0x2028 || n == 0x2029 || n == 0x202F || n == 0x205F || n == 0x3000
}

/// Dropping `i` leading white-space characters, up to one that is not, is
/// what `trim_start` does.
proof fn lemma_trim_start_at(s: Seq<char>, i: int)
    requires
        0 <= i <= s.len(),
        forall|k: int| 0 <= k < i ==> is_white_space(#[trigger] s[k]),
        i == s.len() || !is_white_space(s[i]),
    ensures
        trim_start(s) == s.skip(i),
    decreases i,
{
    if i == 0 {
        assert(s.skip(0) =~= s);
    } else {
        assert forall|k: int| 0 <= k < i - 1 implies is_white_space(#[trigger] s.drop_first()[k]) by {
            assert(s.drop_first()[k] == s[k + 1]);
        }
        if i < s.len() {
            assert(s.drop_first()[i - 1] == s[i]);
        }
        lemma_trim_start_at(s.drop_first(), i - 1);
        assert(s.drop_first().skip(i - 1) =~= s.skip(i));
    }
}

/// Keeping the first `j` characters, when all after them are white space and
/// the last kept one is not, is what `trim_end` does.
proof fn lemma_trim_end_at(u: Seq<char>, j: int)
    requires
        0 <= j <= u.len(),
        forall|k: int| j <= k < u.len() ==> is_white_space(#[trigger] u[k]),
        j == 0 || !is_white_space(u[j - 1]),
    ensures
        trim_end(u) == u.take(j),
    decreases u.len() - j,
{
    if j == u.len() {
        assert(u.take(j) =~= u);
    } else {
        let p = u.drop_last();
        assert forall|k: int| j <= k < p.len() implies is_white_space(#[trigger] p[k]) by {
            assert(p[k] == u[k]);
        }
        if j > 0 {
            assert(p[j - 1] == u[j - 1]);
        }
        lemma_trim_end_at(p, j);
        assert(p.take(j) =~= u.take(j));
    }
}

/// `str::trim`: `s` without its leading and trailing white space.
pub fn trim<'a>(s: &'a str) -> (r: &'a str)
    ensures
        r@ == trimmed(s@),
{
    let v = chars_of(s);
    let n = v.len();
    let mut i: usize = 0;
    while i < n && white_space(v[i])
        invariant
            n == v@.len(),
            i <= n,
            forall|k: int| 0 <= k < i ==> is_white_space(#[trigger] v@[k]),
        decreases n - i,
    {
        i = i + 1;
    }
    let mut j: usize = n;
    while j > i && white_space(v[j - 1])
        invariant
            n == v@.len(),
            i <= j <= n,
            forall|k: int| j <= k < n ==> is_white_space(#[trigger] v@[k]),
        decreases j - i,
    {
        j = j - 1;
    }
    proof {
        lemma_trim_start_at(s@, i as int);
        let u = s@.skip(i as int);
        assert forall|k: int| j - i <= k < u.len() implies is_white_space(#[trigger] u[k]) by {
            assert(u[k] == s@[k + i]);
        }
        if j > i {
            assert(u[j - i - 1] == s@[j - 1]);
        }
        lemma_trim_end_at(u, j - i);
        assert(u.take(j - i) =~= s@.subrange(i as int, j as int));
    }
    s.substring_char(i, j)
}

/// ASCII uppercase of every character.
pub open spec fn ascii_upper(s: Seq<char>) -> Seq<char> {
    s.map_values(|c: char| to_upper(c))
}

/// ASCII lowercase of every character.
pub open spec fn ascii_lower(s: Seq<char>) -> Seq<char> {
    s.map_values(|c: char| to_lower(c))
}

/// `str::eq_ignore_ascii_case`.
pub open spec fn eq_ignore_ascii_case(a: Seq<char>, b: Seq<char>) -> bool {
    ascii_lower(a) == ascii_lower(b)
}

// ── numerals ──────────────────────────────────

/// Decimal digits of `n`, most significant first, no leading zeros.
pub open spec fn decimal(n: nat) -> Seq<char>
    decreases n,
{
    if n < 10 {
        seq![digit(n as int)]
    } else {
        decimal(n / 10).push(digit((n % 10) as int))
    }
}

/// Whether every character is an ASCII digit.
pub open spec fn all_digits(s: Seq<char>) -> bool {
    forall|i: int| 0 <= i < s.len() ==> #[trigger] is_ascii_digit(s[i])
}

/// The number that a string of decimal digits denotes.
pub open spec fn digits_value(s: Seq<char>) -> nat
    decreases s.len(),
{
    if s.len() == 0 {
        0
    } else {
        digits_value(s.drop_last()) * 10 + ((s.last() as int - 48) as nat)
    }
}

/// Uppercase hexadecimal digit for `d < 16`.
pub open spec fn hex_upper_digit(d: int) -> char {
    if d < 10 {
        digit(d)
    } else {
        char_of(55 + d)
    }
}

/// Lowercase hexadecimal digit for `d < 16`.
pub open spec fn hex_lower_digit(d: int) -> char {
    if d < 10 {
        digit(d)
    } else {
        char_of(87 + d)
    }
}

/// Two uppercase hexadecimal digits of a byte (`{:02X}`).
pub open spec fn hex2(b: int) -> Seq<char> {
    seq![hex_upper_digit(b / 16), hex_upper_digit(b % 16)]
}

/// Lowercase hexadecimal digits of `n`, no leading zeros (`{:x}`).
pub open spec fn hex_lower(n: nat) -> Seq<char>
    decreases n,
{
    if n < 16 {
        seq![hex_lower_digit(n as int)]
    } else {
        hex_lower(n / 16).push(hex_lower_digit((n % 16) as int))
    }
}

/// The value of a hexadecimal digit (either case), or `None`.
pub open spec fn hex_digit_value(c: char) -> Option<nat> {
    let n = c as int;
    if 48 <= n <= 57 {
        Some((n - 48) as nat)
    } else if 65 <= n <= 70 {
        Some((n - 55) as nat)
    } else if 97 <= n <= 102 {
        Some((n - 87) as nat)
    } else {
        None
    }
}

/// Whether every character is a hexadecimal digit.
pub open spec fn all_hex_digits(s: Seq<char>) -> bool {
    forall|i: int| 0 <= i < s.len() ==> (#[trigger] hex_digit_value(s[i])) is Some
}

/// The number that a string of hexadecimal digits denotes.
pub open spec fn hex_value(s: Seq<char>) -> nat
    decreases s.len(),
{
    if s.len() == 0 {
        0
    } else {
        hex_value(s.drop_last()) * 16 + match hex_digit_value(s.last()) {
            Some(d) => d,
            None => 0,
        }
    }
}

/// What `u32::from_str_radix(s, 16)` accepts: an optional `+`, then at
/// least one hexadecimal digit, with a value that fits in 32 bits.
pub open spec fn hex_u32(s: Seq<char>) -> Option<u32> {
    let body = if s.len() > 0 && s[0] == '+' {
        s.drop_first()
    } else {
        s
    };
    if body.len() > 0 && all_hex_digits(body) && hex_value(body) <= u32::MAX {
        Some(hex_value(body) as u32)
    } else {
        None
    }
}

// ── joining ───────────────────────────────────

/// The items of `list` with `sep` between each two.
pub open spec fn seq_join(list: Seq<Seq<char>>, sep: Seq<char>) -> Seq<char>
    decreases list.len(),
{
    if list.len() == 0 {
        Seq::empty()
    } else if list.len() == 1 {
        list[0]
    } else {
        seq_join(list.drop_last(), sep) + sep + list.last()
    }
}

// ── lemmas ────────────────────────────────────

/// The digits of `decimal(n)` are digits and read back as `n`.
pub proof fn lemma_decimal_digits(n: nat)
    ensures
        all_digits(decimal(n)),
        digits_value(decimal(n)) == n,
        decimal(n).len() > 0,
        decimal(n).len() == 1 || decimal(n)[0] != '0',
    decreases n,
{
    let d = decimal(n);
    if n >= 10 {
        lemma_decimal_digits(n / 10);
        let q = decimal(n / 10);
        assert(d == q.push(digit((n % 10) as int)));
        assert(d.drop_last() =~= q);
        assert(d.last() == digit((n % 10) as int));
        assert(digit((n % 10) as int) as int == 48 + n % 10);
        assert(digits_value(d) == digits_value(q) * 10 + (n % 10));
        assert(digits_value(q) == n / 10);
        assert((n / 10) * 10 + n % 10 == n);
        assert(d[0] == q[0]);
        if n / 10 < 10 {
            assert(q == seq![digit((n / 10) as int)]);
            assert(digit((n / 10) as int) as int == 48 + n / 10);
        } else {
            lemma_decimal_digits(n / 10 / 10);
            assert(q == decimal(n / 10 / 10).push(digit((n / 10 % 10) as int)));
            assert(q.len() > 1);
        }
        assert forall|i: int| 0 <= i < d.len() implies #[trigger] is_ascii_digit(d[i]) by {
            if i < q.len() {
                assert(d[i] == q[i]);
            }
        }
    } else {
        assert(d == seq![digit(n as int)]);
        assert(d.drop_last() =~= Seq::<char>::empty());
        assert(digits_value(Seq::<char>::empty()) == 0);
        assert(digit(n as int) as int == 48 + n);
        assert(digits_value(d) == digits_value(d.drop_last()) * 10 + ((d.last() as int - 48) as nat));
    }
}

/// Reading a prefix of digits never gives more than the whole.
pub proof fn lemma_digits_value_prefix(s: Seq<char>, i: int)
    requires
        0 <= i <= s.len(),
        all_digits(s),
    ensures
        digits_value(s.take(i)) <= digits_value(s),
    decreases s.len() - i,
{
    if i < s.len() {
        lemma_digits_value_prefix(s, i + 1);
        assert(s.take(i + 1).drop_last() =~= s.take(i));
        assert(is_ascii_digit(s[i]));
    } else {
        assert(s.take(i) =~= s);
    }
}

/// Reading a prefix of hex digits never gives more than the whole.
pub proof fn lemma_hex_value_prefix(s: Seq<char>, i: int)
    requires
        0 <= i <= s.len(),
        all_hex_digits(s),
    ensures
        hex_value(s.take(i)) <= hex_value(s),
    decreases s.len() - i,
{
    if i < s.len() {
        lemma_hex_value_prefix(s, i + 1);
        assert(s.take(i + 1).drop_last() =~= s.take(i));
    } else {
        assert(s.take(i) =~= s);
    }
}

// ── executable helpers ────────────────────────

/// The character for a code point below 128.
pub fn ascii_char(n: u8) -> (c: char)
    requires
        n < 128,
    ensures
        c == char_of(n as int),
{
    n as char
}

/// The characters of a string slice, in order.
pub fn chars_of(s: &str) -> (v: Vec<char>)
    ensures
        v@ == s@,
{
    let n = s.unicode_len();
    let mut v: Vec<char> = Vec::new();
    let mut i: usize = 0;
    while i < n
        invariant
            n == s@.len(),
            i <= n,
            v@ == s@.take(i as int),
        decreases n - i,
    {
        v.push(s.get_char(i));
        i = i + 1;
        assert(v@ =~= s@.take(i as int));
    }
    assert(s@.take(n as int) =~= s@);
    v
}

/// The code point of a character.
pub fn code_point(c: char) -> (n: u32)
    ensures
        n == c as int,
{
    c as u32
}

/// `char::to_ascii_uppercase`.
pub fn char_to_upper(c: char) -> (u: char)
    ensures
        u == to_upper(c),
{
    let n = code_point(c);
    if 97 <= n && n <= 122 {
        ascii_char((n - 32) as u8)
    } else {
        c
    }
}

/// `char::to_ascii_lowercase`.
pub fn char_to_lower(c: char) -> (l: char)
    ensures
        l == to_lower(c),
{
    let n = code_point(c);
    if 65 <= n && n <= 90 {
        ascii_char((n + 32) as u8)
    } else {
        c
    }
}

/// `str::eq_ignore_ascii_case`.
pub fn str_eq_ignore_ascii_case(a: &str, b: &str) -> (r: bool)
    ensures
        r == eq_ignore_ascii_case(a@, b@),
{
    let av = chars_of(a);
    let bv = chars_of(b);
    if av.len() != bv.len() {
        assert(ascii_lower(a@).len() != ascii_lower(b@).len());
        return false;
    }
    let mut i: usize = 0;
    while i < av.len()
        invariant
            av@ == a@,
            bv@ == b@,
            av@.len() == bv@.len(),
            i <= av@.len(),
            forall|j: int| 0 <= j < i ==> to_lower(#[trigger] av@[j]) == to_lower(bv@[j]),
        decreases av.len() - i,
    {
        if char_to_lower(av[i]) != char_to_lower(bv[i]) {
            assert(ascii_lower(a@)[i as int] != ascii_lower(b@)[i as int]);
            return false;
        }
        i = i + 1;
    }
    assert(ascii_lower(a@) =~= ascii_lower(b@));
    true
}

/// Decimal digits of a number (`{}` on an unsigned integer).
pub fn decimal_string(n: u32) -> (s: String)
    ensures
        s@ == decimal(n as nat),
{
    let mut digits: Vec<char> = Vec::new();
    let mut m: u32 = n;
    loop
        invariant_except_break
            decimal(n as nat) == decimal(m as nat) + digits@.reverse(),
        ensures
            decimal(n as nat) == digits@.reverse(),
        decreases m,
    {
        let ghost old_digits = digits@;
        digits.push(ascii_char((48 + m % 10) as u8));
        assert(digits@.reverse() =~= seq![digit((m % 10) as int)] + old_digits.reverse());
        if m < 10 {
            break;
        }
        m = m / 10;
    }
    let mut s = String::new();
    let mut i: usize = digits.len();
    while i > 0
        invariant
            i <= digits.len(),
            s@ == digits@.reverse().take(digits.len() - i),
            decimal(n as nat) == digits@.reverse(),
        decreases i,
    {
        i = i - 1;
        s.push(digits[i]);
        assert(digits@.reverse().take(digits.len() - i) =~= digits@.reverse().take(
            digits.len() - i - 1,
        ).push(digits@[i as int]));
    }
    assert(digits@.reverse().take(digits.len() as int) =~= digits@.reverse());
    s
}

/// Lowercase hexadecimal digits of a number (`{:x}`).
pub fn hex_lower_string(n: u64) -> (s: String)
    ensures
        s@ == hex_lower(n as nat),
{
    let mut digits: Vec<char> = Vec::new();
    let mut m: u64 = n;
    loop
        invariant_except_break
            hex_lower(n as nat) == hex_lower(m as nat) + digits@.reverse(),
        ensures
            hex_lower(n as nat) == digits@.reverse(),
        decreases m,
    {
        let ghost old_digits = digits@;
        let d: u64 = m % 16;
        let c = if d < 10 {
            ascii_char((48 + d) as u8)
        } else {
            ascii_char((87 + d) as u8)
        };
        assert(c == hex_lower_digit(d as int));
        digits.push(c);
        assert(digits@.reverse() =~= seq![hex_lower_digit(d as int)] + old_digits.reverse());
        if m < 16 {
            assert(hex_lower(m as nat) == seq![hex_lower_digit(d as int)]);
            break;
        }
        assert(hex_lower(m as nat) == hex_lower((m / 16) as nat).push(hex_lower_digit(d as int)));
        m = m / 16;
    }
    let mut s = String::new();
    let mut i: usize = digits.len();
    while i > 0
        invariant
            i <= digits.len(),
            s@ == digits@.reverse().take(digits.len() - i),
            hex_lower(n as nat) == digits@.reverse(),
        decreases i,
    {
        i = i - 1;
        s.push(digits[i]);
        assert(digits@.reverse().take(digits.len() - i) =~= digits@.reverse().take(
            digits.len() - i - 1,
        ).push(digits@[i as int]));
    }
    assert(digits@.reverse().take(digits.len() as int) =~= digits@.reverse());
    s
}

/// Two uppercase hexadecimal digits of a byte (`{:02X}`).
pub fn push_hex2(s: &mut String, b: u32)
    requires
        b < 256,
    ensures
        final(s)@ == old(s)@ + hex2(b as int),
{
    let hi = b / 16;
    let lo = b % 16;
    let c1 = if hi < 10 {
        ascii_char((48 + hi) as u8)
    } else {
        ascii_char((55 + hi) as u8)
    };
    let c2 = if lo < 10 {
        ascii_char((48 + lo) as u8)
    } else {
        ascii_char((55 + lo) as u8)
    };
    s.push(c1);
    s.push(c2);
    assert(s@ =~= old(s)@ + hex2(b as int));
}

/// What `str::parse::<u32>` gives for digits `v[from..to]`: the value when
/// the text is a non-empty run of digits that fits in 32 bits.
pub fn parse_decimal_u32(v: &[char], from: usize, to: usize) -> (r: Option<u32>)
    requires
        from <= to <= v@.len(),
    ensures
        ({
            let t = v@.subrange(from as int, to as int);
            r == if t.len() > 0 && all_digits(t) && digits_value(t) <= u32::MAX {
                Some(digits_value(t) as u32)
            } else {
                None
            }
        }),
{
    let ghost t = v@.subrange(from as int, to as int);
    if from == to {
        return None;
    }
    let mut value: u64 = 0;
    let mut i: usize = from;
    while i < to
        invariant
            from <= i <= to <= v@.len(),
            t == v@.subrange(from as int, to as int),
            all_digits(t.take(i - from)),
            value == digits_value(t.take(i - from)),
            value <= u32::MAX,
        decreases to - i,
    {
        let c = v[i];
        let n = code_point(c);
        assert(t[i - from] == c);
        if n < 48 || n > 57 {
            assert(!is_ascii_digit(t[i - from]));
            return None;
        }
        assert(t.take(i - from + 1).drop_last() =~= t.take(i - from));
        assert(t.take(i - from + 1).last() == c);
        let next: u64 = value * 10 + (n - 48) as u64;
        assert(is_ascii_digit(c));
        i = i + 1;
        assert forall|j: int| 0 <= j < t.take(i - from).len() implies #[trigger] is_ascii_digit(
            t.take(i - from)[j],
        ) by {
            if j < i - from - 1 {
                assert(t.take(i - from)[j] == t.take(i - from - 1)[j]);
            }
        }
        assert(next == digits_value(t.take(i - from)));
        if next > 0xFFFF_FFFF {
            proof {
                if all_digits(t) {
                    lemma_digits_value_prefix(t, i - from);
                }
            }
            return None;
        }
        value = next;
    }
    assert(t.take(to - from) =~= t);
    Some(value as u32)
}

/// What `u32::from_str_radix(s, 16)` gives.
pub fn parse_hex_u32(s: &str) -> (r: Option<u32>)
    ensures
        r == hex_u32(s@),
{
    let v = chars_of(s);
    let from: usize = if v.len() > 0 && v[0] == '+' {
        1
    } else {
        0
    };
    let ghost body = if s@.len() > 0 && s@[0] == '+' {
        s@.drop_first()
    } else {
        s@
    };
    assert(body =~= v@.subrange(from as int, v@.len() as int));
    if from == v.len() {
        return None;
    }
    let mut value: u64 = 0;
    let mut i: usize = from;
    while i < v.len()
        invariant
            from <= i <= v@.len(),
            body == v@.subrange(from as int, v@.len() as int),
            body == (if s@.len() > 0 && s@[0] == '+' {
                s@.drop_first()
            } else {
                s@
            }),
            all_hex_digits(body.take(i - from)),
            value == hex_value(body.take(i - from)),
            value <= u32::MAX,
        decreases v.len() - i,
    {
        let n = code_point(v[i]);
        assert(body[i - from] == v@[i as int]);
        let d: u64 = if 48 <= n && n <= 57 {
            (n - 48) as u64
        } else if 65 <= n && n <= 70 {
            (n - 55) as u64
        } else if 97 <= n && n <= 102 {
            (n - 87) as u64
        } else {
            assert(hex_digit_value(body[i - from]) is None);
            return None;
        };
        assert(body.take(i - from + 1).drop_last() =~= body.take(i - from));
        assert(body.take(i - from + 1).last() == v@[i as int]);
        assert(hex_digit_value(v@[i as int]) == Some(d as nat));
        let next: u64 = value * 16 + d;
        i = i + 1;
        assert forall|j: int| 0 <= j < body.take(i - from).len() implies (#[trigger] hex_digit_value(
            body.take(i - from)[j],
        )) is Some by {
            if j < i - from - 1 {
                assert(body.take(i - from)[j] == body.take(i - from - 1)[j]);
            }
        }
        assert(next == hex_value(body.take(i - from)));
        if next > 0xFFFF_FFFF {
            proof {
                if all_hex_digits(body) {
                    lemma_hex_value_prefix(body, i - from);
                }
            }
            return None;
        }
        value = next;
    }
    assert(body.take(v.len() - from) =~= body);
    Some(value as u32)
}

/// Whether two string slices hold the same characters.
pub fn str_eq(a: &str, b: &str) -> (r: bool)
    ensures
        r == (a@ == b@),
{
    let av = chars_of(a);
    let bv = chars_of(b);
    if av.len() != bv.len() {
        return false;
    }
    let mut i: usize = 0;
    while i < av.len()
        invariant
            av@ == a@,
            bv@ == b@,
            av@.len() == bv@.len(),
            i <= av@.len(),
            forall|j: int| 0 <= j < i ==> #[trigger] av@[j] == bv@[j],
        decreases av.len() - i,
    {
        if av[i] != bv[i] {
            return false;
        }
        i = i + 1;
    }
    assert(av@ =~= bv@);
    true
}

/// Joins the strings of `items` with `sep` between each two.
pub fn join_strings(items: &[String], sep: &str) -> (s: String)
    ensures
        s@ == seq_join(items@.map_values(|x: String| x@), sep@),
{
    let ghost views = items@.map_values(|x: String| x@);
    let mut s = String::new();
    let mut i: usize = 0;
    while i < items.len()
        invariant
            i <= items@.len(),
            views == items@.map_values(|x: String| x@),
            s@ == seq_join(views.take(i as int), sep@),
        decreases items.len() - i,
    {
        if i > 0 {
            s.append(sep);
        }
        s.append(items[i].as_str());
        i = i + 1;
        assert(views.take(i as int).drop_last() =~= views.take(i - 1));
        assert(views.take(1) =~= seq![views[0]]);
    }
    assert(views.take(items@.len() as int) =~= views);
    s
}

} // verus!
