//! Character-level operations on text.

use vstd::prelude::*;

verus! {

/// The characters of a text.
pub fn chars_of(s: &str) -> (r: Vec<char>)
    ensures
        r@ == s@,
{
    let mut r: Vec<char> = Vec::new();
    for c in it: s.chars()
        invariant
            r@ == s@.take(it.index() as int),
            it.seq() == s@,
    {
        r.push(c);
        assert(s@.take(it.index() as int).push(c) =~= s@.take(it.index() + 1));
    }
    assert(s@.take(s@.len() as int) =~= s@);
    r
}

/// `String::push` appends one character.
pub assume_specification[ String::push ](s: &mut String, c: char)
    ensures
        final(s)@ == old(s)@.push(c),
;

/// The text of the characters from `from` up to `to`.
pub fn text_of(chars: &Vec<char>, from: usize, to: usize) -> (r: String)
    requires
        from <= to <= chars@.len(),
    ensures
        r@ == chars@.subrange(from as int, to as int),
{
    let mut r: String = String::new();
    for i in from..to
        invariant
            from <= to <= chars@.len(),
            r@ == chars@.subrange(from as int, i as int),
    {
        r.push(chars[i]);
        assert(chars@.subrange(from as int, i as int).push(chars@[i as int]) =~= chars@.subrange(
            from as int,
            i + 1,
        ));
    }
    r
}

/// The character with an ASCII capital replaced by the small letter.
pub open spec fn ascii_lower(c: char) -> int {
    if 'A' <= c && c <= 'Z' {
        c as int + 32
    } else {
        c as int
    }
}

/// The number of a character.
pub fn code(c: char) -> (r: u32)
    ensures
        r as int == c as int,
{
    c as u32
}

fn lower_code(c: char) -> (r: u32)
    ensures
        r as int == ascii_lower(c),
{
    if 'A' <= c && c <= 'Z' {
        c as u32 + 32
    } else {
        c as u32
    }
}

/// Whether `s` is `t` once its ASCII capitals are replaced by small letters.
pub open spec fn lowers_to(s: Seq<char>, t: Seq<char>) -> bool {
    &&& s.len() == t.len()
    &&& forall|i: int| 0 <= i < s.len() ==> ascii_lower(#[trigger] s[i]) == t[i] as int
}

/// Tells whether `s` is `t` once its ASCII capitals are replaced by small letters.
pub fn matches_lowered(s: &str, t: &str) -> (r: bool)
    ensures
        r == lowers_to(s@, t@),
{
    let a = chars_of(s);
    let b = chars_of(t);
    if a.len() != b.len() {
        return false;
    }
    for i in 0..a.len()
        invariant
            a@ == s@,
            b@ == t@,
            a@.len() == b@.len(),
            forall|j: int| 0 <= j < i ==> ascii_lower(#[trigger] s@[j]) == t@[j] as int,
    {
        let c: char = a[i];
        let d: char = b[i];
        if lower_code(c) != code(d) {
            return false;
        }
    }
    true
}

/// Tells whether two texts are equal.
pub fn same_text(s: &str, t: &str) -> (r: bool)
    ensures
        r == (s@ == t@),
{
    let a = chars_of(s);
    let b = chars_of(t);
    if a.len() != b.len() {
        return false;
    }
    for i in 0..a.len()
        invariant
            a@ == s@,
            b@ == t@,
            a@.len() == b@.len(),
            forall|j: int| 0 <= j < i ==> (#[trigger] s@[j]) == t@[j],
    {
        if a[i] != b[i] {
            return false;
        }
    }
    assert(s@ =~= t@);
    true
}

/// The decimal digit for a number below ten.
pub open spec fn digit(d: int) -> char {
    if d == 0 {
        '0'
    } else if d == 1 {
        '1'
    } else if d == 2 {
        '2'
    } else if d == 3 {
        '3'
    } else if d == 4 {
        '4'
    } else if d == 5 {
        '5'
    } else if d == 6 {
        '6'
    } else if d == 7 {
        '7'
    } else if d == 8 {
        '8'
    } else {
        '9'
    }
}

fn digit_char(d: usize) -> (r: char)
    ensures
        r == digit(d as int),
{
    if d == 0 {
        '0'
    } else if d == 1 {
        '1'
    } else if d == 2 {
        '2'
    } else if d == 3 {
        '3'
    } else if d == 4 {
        '4'
    } else if d == 5 {
        '5'
    } else if d == 6 {
        '6'
    } else if d == 7 {
        '7'
    } else if d == 8 {
        '8'
    } else {
        '9'
    }
}

/// The decimal text of a number, without leading zeros.
pub open spec fn dec(n: int) -> Seq<char>
    decreases n,
{
    if n < 10 {
        seq![digit(n)]
    } else {
        dec(n / 10).push(digit(n % 10))
    }
}

/// Writes a number in decimal.
pub fn decimal(n: usize) -> (r: String)
    ensures
        r@ == dec(n as int),
    decreases n,
{
    if n < 10 {
        let mut s = String::new();
        s.push(digit_char(n));
        assert(s@ =~= seq![digit(n as int)]);
        s
    } else {
        let mut s = decimal(n / 10);
        s.push(digit_char(n % 10));
        s
    }
}

// ── White space ──

/// Whether a character is white space in the sense of Unicode.
pub open spec fn is_space(c: char) -> bool {
    let n = c as int;
    ||| 9 <= n <= 13
    ||| n == 0x20
    ||| n == 0x85
    ||| n == 0xA0
    ||| n == 0x1680
    ||| 0x2000 <= n <= 0x200A
    ||| n == 0x2028
    ||| n == 0x2029
    ||| n == 0x202F
    ||| n == 0x205F
    ||| n == 0x3000
}

fn space(c: char) -> (r: bool)
    ensures
        r == is_space(c),
{
    let n: u32 = c as u32;
    (9 <= n && n <= 13) || n == 0x20 || n == 0x85 || n == 0xA0 || n == 0x1680 || (0x2000 <= n && n
        <= 0x200A) || n == 0x2028 || n == 0x2029 || n == 0x202F || n == 0x205F || n == 0x3000
}

/// First place from `i` on that holds white space, or the end.
pub open spec fn word_end(s: Seq<char>, i: int) -> int
    decreases s.len() - i,
{
    if i >= s.len() {
        s.len() as int
    } else if is_space(s[i]) {
        i
    } else {
        word_end(s, i + 1)
    }
}

/// First place from `i` on that holds no white space, or the end.
pub open spec fn word_start(s: Seq<char>, i: int) -> int
    decreases s.len() - i,
{
    if i >= s.len() {
        s.len() as int
    } else if !is_space(s[i]) {
        i
    } else {
        word_start(s, i + 1)
    }
}

pub proof fn word_bounds(s: Seq<char>, i: int)
    requires
        0 <= i <= s.len(),
    ensures
        i <= word_start(s, i) <= s.len(),
        i <= word_end(s, i) <= s.len(),
        word_start(s, i) < s.len() ==> !is_space(s[word_start(s, i)]) && word_end(s, word_start(s, i))
            > word_start(s, i),
    decreases s.len() - i,
{
    if i < s.len() {
        word_bounds(s, i + 1);
        if !is_space(s[i]) {
            assert(word_end(s, i) == word_end(s, i + 1));
        }
    }
}

/// The words from place `i` on: longest runs without white space.
pub open spec fn words(s: Seq<char>, i: int) -> Seq<Seq<char>>
    decreases s.len() - i,
{
    if i < 0 || i > s.len() {
        Seq::empty()
    } else {
        let a = word_start(s, i);
        if a >= s.len() {
            Seq::empty()
        } else {
            let b = word_end(s, a);
            if i <= a < b <= s.len() {
                seq![s.subrange(a, b)] + words(s, b)
            } else {
                Seq::empty()
            }
        }
    }
}

/// The characters of each text.
pub open spec fn texts(v: Seq<String>) -> Seq<Seq<char>> {
    v.map_values(|s: String| s@)
}

/// Splits a text at white space.
pub fn split_words(s: &str) -> (r: Vec<String>)
    ensures
        texts(r@) == words(s@, 0),
{
    let chars = chars_of(s);
    let n: usize = chars.len();
    let mut r: Vec<String> = Vec::new();
    let mut i: usize = 0;
    assert(texts(r@) + words(s@, 0) =~= words(s@, 0));
    loop
        invariant
            chars@ == s@,
            n == s@.len(),
            i <= n,
            texts(r@) + words(s@, i as int) == words(s@, 0),
        ensures
            texts(r@) == words(s@, 0),
        decreases n - i,
    {
        let mut a: usize = i;
        while a < n && space(chars[a])
            invariant
                chars@ == s@,
                n == s@.len(),
                i <= a <= n,
                word_start(s@, a as int) == word_start(s@, i as int),
            decreases n - a,
        {
            a = a + 1;
        }
        if a == n {
            assert(texts(r@) + words(s@, i as int) =~= texts(r@));
            break;
        }
        let mut b: usize = a;
        while b < n && !space(chars[b])
            invariant
                chars@ == s@,
                n == s@.len(),
                a <= b <= n,
                word_end(s@, b as int) == word_end(s@, a as int),
            decreases n - b,
        {
            b = b + 1;
        }
        let ghost r0 = r@;
        let w = text_of(&chars, a, b);
        r.push(w);
        proof {
            word_bounds(s@, i as int);
            assert(word_start(s@, i as int) == a);
            assert(word_end(s@, a as int) == b);
            assert(texts(r@) =~= texts(r0).push(w@));
            assert(texts(r@) + words(s@, b as int) =~= texts(r0) + (seq![w@] + words(s@, b as int)));
        }
        i = b;
    }
    r
}

/// Last place up to `j` behind which there is no more than white space, not before `i`.
pub open spec fn trimmed_end(s: Seq<char>, i: int, j: int) -> int
    decreases j,
{
    if j <= i || j <= 0 {
        i
    } else if !is_space(s[j - 1]) {
        j
    } else {
        trimmed_end(s, i, j - 1)
    }
}

/// The text without white space at its ends.
pub open spec fn trimmed(s: Seq<char>) -> Seq<char> {
    let a = word_start(s, 0);
    s.subrange(a, trimmed_end(s, a, s.len() as int))
}

/// Removes white space at the ends.
pub fn trim(s: &str) -> (r: String)
    ensures
        r@ == trimmed(s@),
{
    let chars = chars_of(s);
    let n: usize = chars.len();
    let mut a: usize = 0;
    while a < n && space(chars[a])
        invariant
            chars@ == s@,
            n == s@.len(),
            a <= n,
            word_start(s@, a as int) == word_start(s@, 0),
        decreases n - a,
    {
        a = a + 1;
    }
    let mut b: usize = n;
    while b > a && space(chars[b - 1])
        invariant
            chars@ == s@,
            n == s@.len(),
            a <= b <= n,
            trimmed_end(s@, a as int, b as int) == trimmed_end(s@, a as int, n as int),
        decreases b,
    {
        b = b - 1;
    }
    text_of(&chars, a, b)
}

/// The text without the `#` characters that it begins with.
pub open spec fn unhashed(s: Seq<char>) -> Seq<char>
    decreases s.len(),
{
    if s.len() > 0 && s[0] == '#' {
        unhashed(s.subrange(1, s.len() as int))
    } else {
        s
    }
}

/// Removes the `#` characters that a text begins with.
pub fn strip_hashes(s: &str) -> (r: String)
    ensures
        r@ == unhashed(s@),
{
    let chars = chars_of(s);
    let n: usize = chars.len();
    let mut a: usize = 0;
    assert(s@.subrange(0, n as int) =~= s@);
    while a < n && chars[a] == '#'
        invariant
            chars@ == s@,
            n == s@.len(),
            a <= n,
            unhashed(s@.subrange(a as int, n as int)) == unhashed(s@),
        decreases n - a,
    {
        assert(s@.subrange(a as int, n as int).subrange(1, n - a) =~= s@.subrange(a + 1, n as int));
        a = a + 1;
    }
    text_of(&chars, a, n)
}

// ── Unsigned numbers ──

/// Value of a decimal digit, if the character is one.
pub open spec fn digit_value(c: char) -> Option<int> {
    if '0' <= c && c <= '9' {
        Some(c as int - '0' as int)
    } else {
        None
    }
}

/// Value of a run of decimal digits, if there are no other characters.
pub open spec fn digits_value(s: Seq<char>) -> Option<int>
    decreases s.len(),
{
    if s.len() == 0 {
        Some(0)
    } else {
        match (digits_value(s.drop_last()), digit_value(s.last())) {
            (Some(a), Some(b)) => Some(a * 10 + b),
            _ => None,
        }
    }
}

/// The number that a text stands for: decimal digits after at most one plus
/// sign, with a value that fits a machine word.
pub open spec fn unsigned_value(s: Seq<char>) -> Option<usize> {
    let d = if s.len() > 0 && s[0] == '+' {
        s.subrange(1, s.len() as int)
    } else {
        s
    };
    if d.len() == 0 {
        None
    } else {
        match digits_value(d) {
            Some(n) => if n <= usize::MAX {
                Some(n as usize)
            } else {
                None
            },
            None => None,
        }
    }
}

proof fn digits_value_prefix(s: Seq<char>, n: int)
    requires
        0 <= n <= s.len(),
        digits_value(s.take(n)) is None || digits_value(s.take(n))->0 > usize::MAX,
    ensures
        digits_value(s) is None || digits_value(s)->0 > usize::MAX,
    decreases s.len() - n,
{
    if n == s.len() {
        assert(s.take(n) =~= s);
    } else {
        assert(s.take(n + 1).drop_last() =~= s.take(n));
        assert(s.take(n + 1).last() == s[n]);
        digits_value_prefix(s, n + 1);
    }
}

fn digit_of(c: char) -> (r: Option<usize>)
    ensures
        r is Some <==> digit_value(c) is Some,
        r is Some ==> r->0 as int == digit_value(c)->0,
        r is Some ==> r->0 < 10,
{
    if '0' <= c && c <= '9' {
        Some((c as u32 - '0' as u32) as usize)
    } else {
        None
    }
}

/// Reads an unsigned number.
pub fn parse_unsigned(s: &str) -> (r: Option<usize>)
    ensures
        r == unsigned_value(s@),
{
    let chars = chars_of(s);
    let n: usize = chars.len();
    let start: usize = if n > 0 && chars[0] == '+' { 1 } else { 0 };
    let ghost d = if s@.len() > 0 && s@[0] == '+' {
        s@.subrange(1, s@.len() as int)
    } else {
        s@
    };
    assert(d =~= s@.subrange(start as int, n as int));
    if start == n {
        return None;
    }
    let mut value: usize = 0;
    assert(d.take(0) =~= Seq::<char>::empty());
    for i in start..n
        invariant
            chars@ == s@,
            n == s@.len(),
            start <= n,
            d == s@.subrange(start as int, n as int),
            d.len() > 0,
            unsigned_value(s@) == (match digits_value(d) {
                Some(x) => if x <= usize::MAX {
                    Some(x as usize)
                } else {
                    None
                },
                None => None,
            }),
            digits_value(d.take(i - start)) == Some(value as int),
    {
        assert(d.take(i - start + 1).drop_last() =~= d.take(i - start));
        assert(d.take(i - start + 1).last() == s@[i as int]);
        let x: usize = match digit_of(chars[i]) {
            Some(x) => x,
            None => {
                proof {
                    digits_value_prefix(d, i - start + 1);
                }
                return None;
            },
        };
        let tens: usize = match value.checked_mul(10) {
            Some(t) => t,
            None => {
                proof {
                    digits_value_prefix(d, i - start + 1);
                }
                return None;
            },
        };
        value = match tens.checked_add(x) {
            Some(v) => v,
            None => {
                proof {
                    digits_value_prefix(d, i - start + 1);
                }
                return None;
            },
        };
    }
    assert(d.take(n - start) =~= d);
    Some(value)
}

/// Reading the decimal text of a machine word gives the word back.
pub proof fn decimal_reads_back(n: usize)
    ensures
        unsigned_value(dec(n as int)) == Some(n),
{
    dec_value(n as int);
}

pub proof fn dec_value(n: int)
    requires
        n >= 0,
    ensures
        digits_value(dec(n)) == Some(n),
        dec(n).len() > 0,
        digit_value(dec(n)[0]) is Some,
    decreases n,
{
    if n < 10 {
        reveal_with_fuel(digits_value, 2);
        assert(dec(n).drop_last() =~= Seq::<char>::empty());
        assert(dec(n).last() == digit(n));
    } else {
        dec_value(n / 10);
        assert(dec(n).drop_last() =~= dec(n / 10));
        assert(dec(n).last() == digit(n % 10));
        assert(dec(n)[0] == dec(n / 10)[0]);
    }
}

} // verus!
