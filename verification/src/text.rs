//! Character-level text utilities over the views of strings.
use vstd::prelude::*;

verus! {

/// Views of a sequence of strings.
pub open spec fn views(v: Seq<String>) -> Seq<Seq<char>> {
    v.map_values(|s: String| s@)
}

/// Unicode `White_Space`: the characters `char::is_whitespace` accepts.
pub open spec fn is_ws(c: char) -> bool {
    let v = c as u32;
    ||| 0x09 <= v <= 0x0D
    ||| v == 0x20
    ||| v == 0x85
    ||| v == 0xA0
    ||| v == 0x1680
    ||| 0x2000 <= v <= 0x200A
    ||| v == 0x2028
    ||| v == 0x2029
    ||| v == 0x202F
    ||| v == 0x205F
    ||| v == 0x3000
}

/// Whether `c` is a whitespace character.
pub fn is_whitespace(c: char) -> (b: bool)
    ensures
        b == is_ws(c),
{
    let v = c as u32;
    (0x09 <= v && v <= 0x0D) || v == 0x20 || v == 0x85 || v == 0xA0 || v == 0x1680 || (0x2000
        <= v && v <= 0x200A) || v == 0x2028 || v == 0x2029 || v == 0x202F || v == 0x205F || v
        == 0x3000
}

/// Index of the first non-whitespace character at or after `i` (or the length).
pub open spec fn skip_ws(s: Seq<char>, i: int) -> int
    decreases s.len() - i,
{
    if i >= s.len() {
        s.len() as int
    } else if is_ws(s[i]) {
        skip_ws(s, i + 1)
    } else {
        i
    }
}

/// Index of the first whitespace character at or after `i` (or the length).
pub open spec fn skip_word(s: Seq<char>, i: int) -> int
    decreases s.len() - i,
{
    if i >= s.len() {
        s.len() as int
    } else if is_ws(s[i]) {
        i
    } else {
        skip_word(s, i + 1)
    }
}

/// The first whitespace-separated word of `s`, if there is one.
pub open spec fn first_word(s: Seq<char>) -> Option<Seq<char>> {
    let start = skip_ws(s, 0);
    if start >= s.len() {
        None
    } else {
        Some(s.subrange(start, skip_word(s, start)))
    }
}

/// End of `s.take(j)` with its trailing whitespace removed.
pub open spec fn trim_end_index(s: Seq<char>, j: int) -> int
    decreases j,
{
    if j <= 0 {
        0
    } else if is_ws(s[j - 1]) {
        trim_end_index(s, j - 1)
    } else {
        j
    }
}

/// `s` without leading and trailing whitespace.
pub open spec fn trimmed(s: Seq<char>) -> Seq<char> {
    let start = skip_ws(s, 0);
    let end = trim_end_index(s, s.len() as int);
    if start >= end {
        Seq::empty()
    } else {
        s.subrange(start, end)
    }
}

/// Whether `prefix` is a prefix of `s`.
pub open spec fn has_prefix(s: Seq<char>, prefix: Seq<char>) -> bool {
    prefix.len() <= s.len() && s.subrange(0, prefix.len() as int) == prefix
}

/// Index of the first `c` at or after `i` (or the length).
pub open spec fn find_char(s: Seq<char>, c: char, i: int) -> int
    decreases s.len() - i,
{
    if i >= s.len() {
        s.len() as int
    } else if s[i] == c {
        i
    } else {
        find_char(s, c, i + 1)
    }
}

/// The lines of `s` from position `i` on: pieces between newlines, where a
/// final newline ends the last line instead of starting an empty one.
pub open spec fn lines_from(s: Seq<char>, i: int) -> Seq<Seq<char>>
    decreases s.len() + 1 - i,
    via lines_from_decreases
{
    if i >= s.len() || i < 0 {
        Seq::empty()
    } else {
        let j = find_char(s, '\n', i);
        seq![s.subrange(i, j)] + lines_from(s, j + 1)
    }
}

#[via_fn]
proof fn lines_from_decreases(s: Seq<char>, i: int) {
    if !(i >= s.len() || i < 0) {
        lemma_find_char_bounds(s, '\n', i);
    }
}

/// `find_char` stays within `i..=s.len()`.
pub proof fn lemma_find_char_bounds(s: Seq<char>, c: char, i: int)
    requires
        0 <= i <= s.len(),
    ensures
        i <= find_char(s, c, i) <= s.len(),
    decreases s.len() - i,
{
    if i < s.len() && s[i] != c {
        lemma_find_char_bounds(s, c, i + 1);
    }
}

/// The lines of `s`.
pub open spec fn lines(s: Seq<char>) -> Seq<Seq<char>> {
    lines_from(s, 0)
}

/// Value of a non-empty string of decimal digits.
pub open spec fn digits_value(d: Seq<char>) -> nat
    decreases d.len(),
{
    if d.len() == 0 {
        0
    } else {
        digits_value(d.drop_last()) * 10 + ((d.last() as u32) - 0x30) as nat
    }
}

/// Whether every character of `d` is an ASCII digit.
pub open spec fn all_digits(d: Seq<char>) -> bool {
    forall|i: int| 0 <= i < d.len() ==> '0' <= #[trigger] d[i] <= '9'
}

/// `s` without one leading `+`.
pub open spec fn unsigned_digits(s: Seq<char>) -> Seq<char> {
    if s.len() > 0 && s[0] == '+' {
        s.drop_first()
    } else {
        s
    }
}

/// What `u64::from_str` gives: an optional `+` and at least one decimal
/// digit, with a value that fits in 64 bits.
pub open spec fn parse_u64_spec(s: Seq<char>) -> Option<u64> {
    let d = unsigned_digits(s);
    if d.len() > 0 && all_digits(d) && digits_value(d) <= u64::MAX {
        Some(digits_value(d) as u64)
    } else {
        None
    }
}

/// The ASCII digit for `d < 10`.
pub open spec fn digit_char(d: nat) -> char {
    (d + 0x30) as char
}

/// Decimal representation of `n`, without leading zeros.
pub open spec fn decimal(n: nat) -> Seq<char>
    decreases n,
{
    if n < 10 {
        seq![digit_char(n)]
    } else {
        decimal(n / 10).push(digit_char(n % 10))
    }
}

/// Decimal representation of a signed integer.
pub open spec fn signed_decimal(n: int) -> Seq<char> {
    if n < 0 {
        seq!['-'] + decimal((-n) as nat)
    } else {
        decimal(n as nat)
    }
}

/// Appends `c` to `s` (`String::push`).
#[verifier::external_body]
pub(crate) fn push_char(s: &mut String, c: char)
    ensures
        final(s)@ == old(s)@.push(c),
{
    s.push(c);
}

/// The characters of `s`, in order.
pub fn chars_of(s: &str) -> (v: Vec<char>)
    ensures
        v@ == s@,
{
    let mut v: Vec<char> = Vec::new();
    for c in it: s.chars()
        invariant
            v@ == it.seq().take(it.index()),
    {
        v.push(c);
    }
    v
}

/// The string made of `v[from..to]`.
pub fn string_of(v: &Vec<char>, from: usize, to: usize) -> (s: String)
    requires
        from <= to <= v.len(),
    ensures
        s@ == v@.subrange(from as int, to as int),
{
    let mut s = String::new();
    let mut i = from;
    while i < to
        invariant
            from <= i <= to <= v.len(),
            s@ == v@.subrange(from as int, i as int),
        decreases to - i,
    {
        push_char(&mut s, v[i]);
        i += 1;
        assert(s@ =~= v@.subrange(from as int, i as int));
    }
    s
}

/// The characters `v[from..to]` as a vector.
pub fn slice_chars(v: &Vec<char>, from: usize, to: usize) -> (r: Vec<char>)
    requires
        from <= to <= v.len(),
    ensures
        r@ == v@.subrange(from as int, to as int),
{
    let mut r: Vec<char> = Vec::new();
    let mut i = from;
    while i < to
        invariant
            from <= i <= to <= v.len(),
            r@ == v@.subrange(from as int, i as int),
        decreases to - i,
    {
        r.push(v[i]);
        i += 1;
        assert(r@ =~= v@.subrange(from as int, i as int));
    }
    r
}

/// Position of the first non-whitespace character at or after `i`.
pub fn skip_whitespace(v: &Vec<char>, i: usize) -> (j: usize)
    requires
        i <= v.len(),
    ensures
        j == skip_ws(v@, i as int),
        i <= j <= v.len(),
    decreases v.len() - i,
{
    if i >= v.len() {
        i
    } else if is_whitespace(v[i]) {
        skip_whitespace(v, i + 1)
    } else {
        i
    }
}

/// Position of the first whitespace character at or after `i`.
pub fn skip_non_whitespace(v: &Vec<char>, i: usize) -> (j: usize)
    requires
        i <= v.len(),
    ensures
        j == skip_word(v@, i as int),
        i <= j <= v.len(),
    decreases v.len() - i,
{
    if i >= v.len() {
        i
    } else if is_whitespace(v[i]) {
        i
    } else {
        skip_non_whitespace(v, i + 1)
    }
}

/// Position of the first `c` at or after `i`.
pub fn find(v: &Vec<char>, c: char, i: usize) -> (j: usize)
    requires
        i <= v.len(),
    ensures
        j == find_char(v@, c, i as int),
        i <= j <= v.len(),
    decreases v.len() - i,
{
    if i >= v.len() {
        i
    } else if v[i] == c {
        i
    } else {
        find(v, c, i + 1)
    }
}

/// End of `v[..j]` with its trailing whitespace removed.
pub fn trim_end_position(v: &Vec<char>, j: usize) -> (k: usize)
    requires
        j <= v.len(),
    ensures
        k == trim_end_index(v@, j as int),
        k <= j,
    decreases j,
{
    if j == 0 {
        0
    } else if is_whitespace(v[j - 1]) {
        trim_end_position(v, j - 1)
    } else {
        j
    }
}

/// The first whitespace-separated word of `v`.
pub fn first_word_of(v: &Vec<char>) -> (w: Option<Vec<char>>)
    ensures
        match first_word(v@) {
            Some(fw) => w is Some && w->0@ == fw,
            None => w is None,
        },
{
    let start = skip_whitespace(v, 0);
    if start >= v.len() {
        None
    } else {
        let end = skip_non_whitespace(v, start);
        Some(slice_chars(v, start, end))
    }
}

/// `s` without leading and trailing whitespace (`str::trim`).
pub fn trim(s: &str) -> (t: String)
    ensures
        t@ == trimmed(s@),
{
    let v = chars_of(s);
    let start = skip_whitespace(&v, 0);
    let end = trim_end_position(&v, v.len());
    if start >= end {
        String::new()
    } else {
        string_of(&v, start, end)
    }
}

/// Whether `prefix` is a prefix of `v`.
pub fn starts_with(v: &Vec<char>, prefix: &Vec<char>) -> (b: bool)
    ensures
        b == has_prefix(v@, prefix@),
{
    if prefix.len() > v.len() {
        return false;
    }
    let mut i: usize = 0;
    while i < prefix.len()
        invariant
            prefix.len() <= v.len(),
            i <= prefix.len(),
            forall|k: int| 0 <= k < i ==> v@[k] == prefix@[k],
        decreases prefix.len() - i,
    {
        if v[i] != prefix[i] {
            assert(v@.subrange(0, prefix.len() as int)[i as int] != prefix@[i as int]);
            return false;
        }
        i += 1;
    }
    assert(v@.subrange(0, prefix.len() as int) =~= prefix@);
    true
}

/// Whether the views of two strings are equal.
pub fn str_eq(a: &str, b: &str) -> (r: bool)
    ensures
        r == (a@ == b@),
{
    let va = chars_of(a);
    let vb = chars_of(b);
    if va.len() != vb.len() {
        return false;
    }
    let mut i: usize = 0;
    while i < va.len()
        invariant
            va.len() == vb.len(),
            va@ == a@,
            vb@ == b@,
            i <= va.len(),
            forall|k: int| 0 <= k < i ==> va@[k] == vb@[k],
        decreases va.len() - i,
    {
        if va[i] != vb[i] {
            return false;
        }
        i += 1;
    }
    assert(va@ =~= vb@);
    true
}

/// Whether some element of `v` has the same view as `s`.
pub fn contains_str(v: &Vec<String>, s: &str) -> (r: bool)
    ensures
        r == exists|i: int| 0 <= i < v.len() && #[trigger] v@[i]@ == s@,
{
    let mut i: usize = 0;
    while i < v.len()
        invariant
            i <= v.len(),
            forall|k: int| 0 <= k < i ==> #[trigger] v@[k]@ != s@,
        decreases v.len() - i,
    {
        if str_eq(v[i].as_str(), s) {
            return true;
        }
        i += 1;
    }
    false
}

proof fn lemma_lines_from_step(s: Seq<char>, i: int)
    requires
        0 <= i < s.len(),
    ensures
        lines_from(s, i) == seq![s.subrange(i, find_char(s, '\n', i))] + lines_from(
            s,
            find_char(s, '\n', i) + 1,
        ),
{
}

/// Number of lines of `s`, as `str::lines().count()` gives it.
pub fn count_lines(s: &str) -> (n: u64)
    ensures
        n == lines(s@).len(),
{
    let v = chars_of(s);
    let mut i: usize = 0;
    let mut n: u64 = 0;
    while i < v.len()
        invariant
            v@ == s@,
            i <= v.len(),
            n <= i,
            n + lines_from(v@, i as int).len() == lines(v@).len(),
        decreases v.len() - i,
    {
        proof {
            lemma_lines_from_step(v@, i as int);
        }
        let j = find(&v, '\n', i);
        n = n + 1;
        if j < v.len() {
            i = j + 1;
        } else {
            i = j;
        }
    }
    n
}

/// The lines of `v`.
pub fn split_lines(v: &Vec<char>) -> (ls: Vec<Vec<char>>)
    ensures
        ls@.len() == lines(v@).len(),
        forall|k: int| 0 <= k < ls@.len() ==> #[trigger] ls@[k]@ == lines(v@)[k],
{
    let mut ls: Vec<Vec<char>> = Vec::new();
    let mut i: usize = 0;
    while i < v.len()
        invariant
            i <= v.len(),
            ls@.len() + lines_from(v@, i as int).len() == lines(v@).len(),
            forall|k: int| 0 <= k < ls@.len() ==> #[trigger] ls@[k]@ == lines(v@)[k],
            forall|k: int|
                0 <= k < lines_from(v@, i as int).len() ==> #[trigger] lines_from(
                    v@,
                    i as int,
                )[k] == lines(v@)[ls@.len() + k],
        decreases v.len() - i,
    {
        proof {
            lemma_lines_from_step(v@, i as int);
        }
        let j = find(v, '\n', i);
        let line = slice_chars(v, i, j);
        let ghost old_ls = ls@;
        let ghost rest = lines_from(v@, (j + 1) as int);
        proof {
            assert(lines_from(v@, i as int)[0] == v@.subrange(i as int, j as int));
            assert forall|k: int| 0 <= k < rest.len() implies #[trigger] rest[k] == lines(
                v@,
            )[old_ls.len() + 1 + k] by {
                assert(lines_from(v@, i as int)[k + 1] == rest[k]);
            }
        }
        ls.push(line);
        if j < v.len() {
            i = j + 1;
        } else {
            i = j;
        }
        proof {
            assert forall|k: int| 0 <= k < ls@.len() implies #[trigger] ls@[k]@ == lines(
                v@,
            )[k] by {
                if k < old_ls.len() {
                    assert(ls@[k] == old_ls[k]);
                }
            }
        }
    }
    ls
}

proof fn lemma_digits_value_push(d: Seq<char>, c: char)
    ensures
        digits_value(d.push(c)) == digits_value(d) * 10 + ((c as u32) - 0x30) as nat,
{
    assert(d.push(c).drop_last() =~= d);
}

proof fn lemma_digits_value_monotone(d: Seq<char>, k: int)
    requires
        0 <= k <= d.len(),
        all_digits(d),
    ensures
        digits_value(d.take(k)) <= digits_value(d),
    decreases d.len() - k,
{
    if k < d.len() {
        lemma_digits_value_monotone(d, k + 1);
        assert(d.take(k + 1) =~= d.take(k).push(d[k]));
        lemma_digits_value_push(d.take(k), d[k]);
    } else {
        assert(d.take(k) =~= d);
    }
}

/// Parses an unsigned decimal number as `u64::from_str` does.
pub fn parse_u64(v: &Vec<char>) -> (r: Option<u64>)
    ensures
        r == parse_u64_spec(v@),
{
    let start: usize = if v.len() > 0 && v[0] == '+' {
        1
    } else {
        0
    };
    let ghost d = unsigned_digits(v@);
    assert(d =~= v@.subrange(start as int, v.len() as int));
    if start >= v.len() {
        return None;
    }
    let mut i = start;
    while i < v.len()
        invariant
            start <= i <= v.len(),
            d =~= v@.subrange(start as int, v.len() as int),
            d == unsigned_digits(v@),
            forall|k: int| start <= k < i ==> '0' <= #[trigger] v@[k] <= '9',
        decreases v.len() - i,
    {
        if v[i] < '0' || v[i] > '9' {
            assert(d[i - start] == v@[i as int]);
            assert(!('0' <= d[i - start] <= '9'));
            assert(!all_digits(d));
            return None;
        }
        i += 1;
    }
    assert(all_digits(d));
    let mut value: u64 = 0;
    let mut i = start;
    while i < v.len()
        invariant
            start <= i <= v.len(),
            d =~= v@.subrange(start as int, v.len() as int),
            d == unsigned_digits(v@),
            all_digits(d),
            value == digits_value(d.take(i - start)),
        decreases v.len() - i,
    {
        proof {
            assert(d[i - start] == v@[i as int]);
            assert('0' <= d[i - start] <= '9');
        }
        let digit = (v[i] as u32 - 0x30) as u64;
        proof {
            assert(d.take(i - start + 1) =~= d.take(i - start).push(v@[i as int]));
            lemma_digits_value_push(d.take(i - start), v@[i as int]);
        }
        if value > (u64::MAX - digit) / 10 {
            proof {
                lemma_digits_value_monotone(d, i - start + 1);
                assert(value * 10 + digit > u64::MAX) by (nonlinear_arith)
                    requires
                        value > (u64::MAX - digit) / 10,
                        digit <= 9,
                ;
            }
            return None;
        }
        assert(value * 10 + digit <= u64::MAX) by (nonlinear_arith)
            requires
                value <= (u64::MAX - digit) / 10,
                digit <= 9,
        ;
        value = value * 10 + digit;
        i += 1;
    }
    assert(d.take(d.len() as int) =~= d);
    Some(value)
}

/// Decimal digits of `n`.
pub fn decimal_chars(n: u64) -> (v: Vec<char>)
    ensures
        v@ == decimal(n as nat),
    decreases n,
{
    let d = ((n % 10) as u32 + 0x30) as u8 as char;
    if n < 10 {
        let mut v: Vec<char> = Vec::new();
        v.push(d);
        assert(v@ =~= decimal(n as nat));
        v
    } else {
        let mut v = decimal_chars(n / 10);
        v.push(d);
        v
    }
}

/// Appends the characters of `v` to `s`.
pub fn append_chars(s: &mut String, v: &Vec<char>)
    ensures
        final(s)@ == old(s)@ + v@,
{
    let mut i: usize = 0;
    while i < v.len()
        invariant
            i <= v.len(),
            s@ == old(s)@ + v@.take(i as int),
        decreases v.len() - i,
    {
        push_char(s, v[i]);
        i += 1;
        assert(v@.take(i as int) =~= v@.take(i - 1).push(v@[i - 1]));
        assert(s@ =~= old(s)@ + v@.take(i as int));
    }
    assert(v@.take(v.len() as int) =~= v@);
}

/// Appends the characters of `t` to `s`.
pub fn append_str(s: &mut String, t: &str)
    ensures
        final(s)@ == old(s)@ + t@,
{
    let v = chars_of(t);
    append_chars(s, &v);
}

/// Decimal representation of `n` (`u64::to_string`).
pub fn u64_to_string(n: u64) -> (s: String)
    ensures
        s@ == decimal(n as nat),
{
    let mut s = String::new();
    let v = decimal_chars(n);
    append_chars(&mut s, &v);
    assert(s@ =~= decimal(n as nat));
    s
}

/// Decimal representation of a signed 32-bit integer (`i32::to_string`).
pub fn i32_to_string(n: i32) -> (s: String)
    ensures
        s@ == signed_decimal(n as int),
{
    let mut s = String::new();
    if n < 0 {
        push_char(&mut s, '-');
        let m: u64 = (-(n as i64)) as u64;
        let v = decimal_chars(m);
        append_chars(&mut s, &v);
        assert(s@ =~= signed_decimal(n as int));
    } else {
        let v = decimal_chars(n as u64);
        append_chars(&mut s, &v);
        assert(s@ =~= signed_decimal(n as int));
    }
    s
}

} // verus!
