//! Text primitives: whitespace, case, prefixes, splitting and numerals.

use vstd::prelude::*;
use vstd::string::*;
use vstd::utf8::encode_utf8;

verus! {

/// `String::push` appends one character.
pub assume_specification[ String::push ](s: &mut String, c: char)
    ensures
        final(s)@ == old(s)@.push(c),
;

// ---------------------------------------------------------------- characters

/// The characters with the Unicode `White_Space` property.
pub open spec fn is_space(c: char) -> bool {
    ||| '\u{9}' <= c <= '\u{d}'
    ||| c == ' '
    ||| c == '\u{85}'
    ||| c == '\u{a0}'
    ||| c == '\u{1680}'
    ||| '\u{2000}' <= c <= '\u{200a}'
    ||| c == '\u{2028}'
    ||| c == '\u{2029}'
    ||| c == '\u{202f}'
    ||| c == '\u{205f}'
    ||| c == '\u{3000}'
}

/// Whether `c` has the Unicode `White_Space` property.
pub fn char_is_space(c: char) -> (r: bool)
    ensures
        r == is_space(c),
{
    ('\u{9}' <= c && c <= '\u{d}') || c == ' ' || c == '\u{85}' || c == '\u{a0}' || c == '\u{1680}'
        || ('\u{2000}' <= c && c <= '\u{200a}') || c == '\u{2028}' || c == '\u{2029}' || c
        == '\u{202f}' || c == '\u{205f}' || c == '\u{3000}'
}

/// The ASCII lower case of `c`; other characters stay as they are.
pub open spec fn lower_char(c: char) -> char {
    if 'A' <= c <= 'Z' {
        ((c as u32 + 32) as u32) as char
    } else {
        c
    }
}

/// The ASCII lower case of `c`.
pub fn char_to_lower(c: char) -> (r: char)
    ensures
        r == lower_char(c),
{
    if 'A' <= c && c <= 'Z' {
        let b: u8 = c as u8;
        (b + 32) as char
    } else {
        c
    }
}

/// `s` with every ASCII letter in lower case.
pub open spec fn lower(s: Seq<char>) -> Seq<char> {
    s.map_values(|c: char| lower_char(c))
}

/// Equality up to the case of ASCII letters.
pub open spec fn same_ignoring_case(a: Seq<char>, b: Seq<char>) -> bool {
    lower(a) == lower(b)
}

/// The characters of `s`, in order.
pub fn chars_of(s: &str) -> (v: Vec<char>)
    ensures
        v@ == s@,
{
    let mut v: Vec<char> = Vec::new();
    for c in it: s.chars()
        invariant
            v@ == s@.take(it.index() as int),
            it.seq() == s@,
    {
        proof {
            assert(s@.take(it.index() + 1) =~= s@.take(it.index() as int).push(c));
        }
        v.push(c);
    }
    proof {
        assert(s@.take(s@.len() as int) =~= s@);
    }
    v
}

/// `s` with ASCII letters in lower case.
pub fn to_lower(s: &str) -> (r: String)
    ensures
        r@ == lower(s@),
{
    let v = chars_of(s);
    let mut r = String::new();
    let mut i: usize = 0;
    while i < v.len()
        invariant
            i <= v.len(),
            v@ == s@,
            r@ == lower(s@).take(i as int),
        decreases v.len() - i,
    {
        r.push(char_to_lower(v[i]));
        i = i + 1;
        proof {
            assert(lower(s@).take(i as int) =~= lower(s@).take(i - 1).push(lower(s@)[i - 1]));
        }
    }
    proof {
        assert(lower(s@).take(s@.len() as int) =~= lower(s@));
    }
    r
}

/// Whether `a` and `b` are equal up to the case of ASCII letters.
pub fn eq_ignore_case(a: &str, b: &str) -> (r: bool)
    ensures
        r == same_ignoring_case(a@, b@),
{
    to_lower(a) == to_lower(b)
}

/// The length of `s` in bytes.
pub fn byte_len(s: &str) -> (n: usize)
    ensures
        n == encode_utf8(s@).len(),
{
    s.as_bytes().len()
}

/// Whether two texts are the same.
pub fn str_eq(a: &str, b: &str) -> (r: bool)
    ensures
        r == (a@ == b@),
{
    let x = chars_of(a);
    let y = chars_of(b);
    if x.len() != y.len() {
        return false;
    }
    let mut i: usize = 0;
    while i < x.len()
        invariant
            i <= x.len(),
            x.len() == y.len(),
            x@ == a@,
            y@ == b@,
            a@.take(i as int) == b@.take(i as int),
        decreases x.len() - i,
    {
        if x[i] != y[i] {
            return false;
        }
        i = i + 1;
        proof {
            assert(a@.take(i as int) =~= a@.take(i - 1).push(a@[i - 1]));
            assert(b@.take(i as int) =~= b@.take(i - 1).push(b@[i - 1]));
        }
    }
    proof {
        assert(a@.take(a@.len() as int) =~= a@);
        assert(b@.take(b@.len() as int) =~= b@);
    }
    true
}

// ------------------------------------------------------------ prefix and trim

/// Whether `s` begins with `p`.
pub open spec fn has_prefix(s: Seq<char>, p: Seq<char>) -> bool {
    p.len() <= s.len() && s.take(p.len() as int) == p
}

/// What follows the prefix `p` of `s`, where `s` begins with it.
pub fn strip_prefix<'a>(s: &'a str, p: &str) -> (r: Option<&'a str>)
    ensures
        has_prefix(s@, p@) <==> r.is_some(),
        r matches Some(rest) ==> rest@ == s@.skip(p@.len() as int),
{
    let x = chars_of(s);
    let y = chars_of(p);
    if x.len() < y.len() {
        return None;
    }
    let mut i: usize = 0;
    while i < y.len()
        invariant
            i <= y.len() <= x.len(),
            x@ == s@,
            y@ == p@,
            s@.take(i as int) == p@.take(i as int),
        decreases y.len() - i,
    {
        if x[i] != y[i] {
            proof {
                assert(s@.take(y.len() as int)[i as int] != p@[i as int]);
            }
            return None;
        }
        i = i + 1;
        proof {
            assert(s@.take(i as int) =~= s@.take(i - 1).push(s@[i - 1]));
            assert(p@.take(i as int) =~= p@.take(i - 1).push(p@[i - 1]));
        }
    }
    proof {
        assert(p@.take(p@.len() as int) =~= p@);
        assert(s@.skip(i as int) =~= s@.subrange(i as int, s@.len() as int));
    }
    Some(s.substring_char(i, x.len()))
}

/// Whether `s` begins with `p`.
pub fn starts_with(s: &str, p: &str) -> (r: bool)
    ensures
        r == has_prefix(s@, p@),
{
    strip_prefix(s, p).is_some()
}

/// `s` without leading white space.
pub open spec fn trim_start(s: Seq<char>) -> Seq<char>
    decreases s.len(),
{
    if s.len() > 0 && is_space(s[0]) {
        trim_start(s.skip(1))
    } else {
        s
    }
}

/// `s` without trailing white space.
pub open spec fn trim_end(s: Seq<char>) -> Seq<char>
    decreases s.len(),
{
    if s.len() > 0 && is_space(s.last()) {
        trim_end(s.drop_last())
    } else {
        s
    }
}

/// `s` without white space at either end.
pub open spec fn trimmed(s: Seq<char>) -> Seq<char> {
    trim_end(trim_start(s))
}

/// `s` without white space at either end.
pub fn trim(s: &str) -> (r: &str)
    ensures
        r@ == trimmed(s@),
{
    let v = chars_of(s);
    let n: usize = v.len();
    let mut lo: usize = 0;
    proof {
        assert(s@.skip(0) =~= s@);
    }
    while lo < n && char_is_space(v[lo])
        invariant
            lo <= n == v.len(),
            v@ == s@,
            trim_start(s@) == trim_start(s@.skip(lo as int)),
        decreases n - lo,
    {
        proof {
            assert(s@.skip(lo as int).skip(1) =~= s@.skip(lo + 1));
        }
        lo = lo + 1;
    }
    let mut hi: usize = n;
    proof {
        assert(trim_start(s@) == s@.skip(lo as int));
        assert(s@.skip(lo as int) =~= s@.subrange(lo as int, hi as int));
    }
    while lo < hi && char_is_space(v[hi - 1])
        invariant
            lo <= hi <= n == v.len(),
            v@ == s@,
            trimmed(s@) == trim_end(s@.subrange(lo as int, hi as int)),
        decreases hi - lo,
    {
        proof {
            assert(s@.subrange(lo as int, hi as int).drop_last() =~= s@.subrange(
                lo as int,
                hi - 1,
            ));
        }
        hi = hi - 1;
    }
    s.substring_char(lo, hi)
}

/// `s` without the characters `c` at its start.
pub open spec fn without_leading(s: Seq<char>, c: char) -> Seq<char>
    decreases s.len(),
{
    if s.len() > 0 && s[0] == c {
        without_leading(s.skip(1), c)
    } else {
        s
    }
}

/// `s` without the characters `c` at its end.
pub open spec fn without_trailing(s: Seq<char>, c: char) -> Seq<char>
    decreases s.len(),
{
    if s.len() > 0 && s.last() == c {
        without_trailing(s.drop_last(), c)
    } else {
        s
    }
}

/// `s` without the characters `c` at its start.
pub fn trim_start_char(s: &str, c: char) -> (r: &str)
    ensures
        r@ == without_leading(s@, c),
{
    let v = chars_of(s);
    let mut lo: usize = 0;
    proof {
        assert(s@.skip(0) =~= s@);
    }
    while lo < v.len() && v[lo] == c
        invariant
            lo <= v.len(),
            v@ == s@,
            without_leading(s@, c) == without_leading(s@.skip(lo as int), c),
        decreases v.len() - lo,
    {
        proof {
            assert(s@.skip(lo as int).skip(1) =~= s@.skip(lo + 1));
        }
        lo = lo + 1;
    }
    proof {
        assert(s@.skip(lo as int) =~= s@.subrange(lo as int, s@.len() as int));
    }
    s.substring_char(lo, v.len())
}

/// `s` without the characters `c` at its end.
pub fn trim_end_char(s: &str, c: char) -> (r: &str)
    ensures
        r@ == without_trailing(s@, c),
{
    let v = chars_of(s);
    let mut hi: usize = v.len();
    proof {
        assert(s@.take(hi as int) =~= s@);
    }
    while hi > 0 && v[hi - 1] == c
        invariant
            hi <= v.len(),
            v@ == s@,
            without_trailing(s@, c) == without_trailing(s@.take(hi as int), c),
        decreases hi,
    {
        proof {
            assert(s@.take(hi as int).drop_last() =~= s@.take(hi - 1));
        }
        hi = hi - 1;
    }
    proof {
        assert(s@.take(hi as int) =~= s@.subrange(0, hi as int));
    }
    s.substring_char(0, hi)
}

// ------------------------------------------------------------------ splitting

/// The position of the first `c` in `s`, or the length of `s`.
pub open spec fn first_index(s: Seq<char>, c: char) -> int
    decreases s.len(),
{
    if s.len() == 0 || s[0] == c {
        0
    } else {
        1 + first_index(s.skip(1), c)
    }
}

/// `first_index` is the least position that holds `c`.
pub proof fn lemma_first_index(s: Seq<char>, c: char)
    ensures
        0 <= first_index(s, c) <= s.len(),
        first_index(s, c) < s.len() ==> s[first_index(s, c)] == c,
        forall|j: int| 0 <= j < first_index(s, c) ==> s[j] != c,
        first_index(s, c) < s.len() <==> s.contains(c),
    decreases s.len(),
{
    if s.len() == 0 || s[0] == c {
    } else {
        lemma_first_index(s.skip(1), c);
        assert forall|j: int| 0 <= j < first_index(s, c) implies s[j] != c by {
            if j > 0 {
                assert(s.skip(1)[j - 1] == s[j]);
            }
        }
        if s.contains(c) {
            let k = choose|k: int| 0 <= k < s.len() && s[k] == c;
            assert(s.skip(1)[k - 1] == c);
        }
    }
}

/// A position with `c` at it and no `c` before it is `first_index`.
pub proof fn lemma_first_index_unique(s: Seq<char>, c: char, i: int)
    requires
        0 <= i <= s.len(),
        i < s.len() ==> s[i] == c,
        forall|j: int| 0 <= j < i ==> s[j] != c,
    ensures
        first_index(s, c) == i,
{
    lemma_first_index(s, c);
}

/// The position of the first `c` in `s`, counted in characters.
pub fn find_char(s: &str, c: char) -> (r: Option<usize>)
    ensures
        r.is_some() <==> s@.contains(c),
        r matches Some(i) ==> i == first_index(s@, c) && i < s@.len(),
{
    let v = chars_of(s);
    let mut i: usize = 0;
    while i < v.len()
        invariant
            i <= v.len(),
            v@ == s@,
            forall|j: int| 0 <= j < i ==> s@[j] != c,
        decreases v.len() - i,
    {
        if v[i] == c {
            proof {
                lemma_first_index_unique(s@, c, i as int);
            }
            return Some(i);
        }
        i = i + 1;
    }
    None
}

/// The pieces of `s` between the separators `c`: one more than there are separators.
pub open spec fn pieces(s: Seq<char>, c: char) -> Seq<Seq<char>>
    decreases s.len(),
{
    let i = first_index(s, c);
    if 0 <= i < s.len() {
        seq![s.take(i)] + pieces(s.skip(i + 1), c)
    } else {
        seq![s]
    }
}

/// The views of a list of texts.
pub open spec fn texts<'a>(v: Seq<&'a str>) -> Seq<Seq<char>> {
    v.map_values(|x: &'a str| x@)
}

/// The views of a list of owned texts.
pub open spec fn strings(v: Seq<String>) -> Seq<Seq<char>> {
    v.map_values(|x: String| x@)
}

/// The pieces of `s` between the separators `c`, in order.
pub fn split_at_char<'a>(s: &'a str, c: char) -> (r: Vec<&'a str>)
    ensures
        texts(r@) == pieces(s@, c),
{
    let v = chars_of(s);
    let n: usize = v.len();
    let mut r: Vec<&'a str> = Vec::new();
    let mut lo: usize = 0;
    let mut i: usize = 0;
    proof {
        assert(s@.skip(0) =~= s@);
        assert(texts(r@) + pieces(s@, c) =~= pieces(s@, c));
    }
    while i < n
        invariant
            lo <= i <= n == v.len(),
            v@ == s@,
            forall|j: int| lo <= j < i ==> s@[j] != c,
            texts(r@) + pieces(s@.skip(lo as int), c) == pieces(s@, c),
        decreases n - i,
    {
        if v[i] == c {
            let ghost before = r@;
            let piece = s.substring_char(lo, i);
            r.push(piece);
            proof {
                let rest = s@.skip(lo as int);
                lemma_first_index_unique(rest, c, i - lo);
                assert(rest.take(i - lo) =~= piece@);
                assert(rest.skip(i - lo + 1) =~= s@.skip(i + 1));
                assert(texts(r@) =~= texts(before).push(piece@));
                assert(texts(before) + (seq![piece@] + pieces(s@.skip(i + 1), c)) =~= texts(
                    before,
                ).push(piece@) + pieces(s@.skip(i + 1), c));
            }
            lo = i + 1;
        }
        i = i + 1;
    }
    let ghost before = r@;
    let piece = s.substring_char(lo, n);
    r.push(piece);
    proof {
        let rest = s@.skip(lo as int);
        lemma_first_index_unique(rest, c, n - lo);
        assert(rest =~= piece@);
        assert(texts(r@) =~= texts(before) + seq![piece@]);
    }
    r
}

/// The number of characters before the first white space.
pub open spec fn word_len(s: Seq<char>) -> int
    decreases s.len(),
{
    if s.len() == 0 || is_space(s[0]) {
        0
    } else {
        1 + word_len(s.skip(1))
    }
}

proof fn lemma_word_len(s: Seq<char>)
    ensures
        0 <= word_len(s) <= s.len(),
        s.len() > 0 && !is_space(s[0]) ==> word_len(s) > 0,
    decreases s.len(),
{
    if s.len() > 0 && !is_space(s[0]) {
        lemma_word_len(s.skip(1));
    }
}

proof fn lemma_trim_start(s: Seq<char>)
    ensures
        trim_start(s).len() <= s.len(),
        trim_start(s).len() > 0 ==> !is_space(trim_start(s)[0]),
    decreases s.len(),
{
    if s.len() > 0 && is_space(s[0]) {
        lemma_trim_start(s.skip(1));
    }
}

/// The words of `s`, which white space parts.
pub open spec fn words(s: Seq<char>) -> Seq<Seq<char>>
    decreases s.len(),
    via words_shrink
{
    let t = trim_start(s);
    if t.len() == 0 {
        Seq::empty()
    } else {
        seq![t.take(word_len(t))] + words(t.skip(word_len(t)))
    }
}

#[via_fn]
proof fn words_shrink(s: Seq<char>) {
    lemma_trim_start(s);
    lemma_word_len(trim_start(s));
}

/// The words of `s`, in order.
pub fn split_words<'a>(s: &'a str) -> (r: Vec<&'a str>)
    ensures
        texts(r@) == words(s@),
{
    let v = chars_of(s);
    let n: usize = v.len();
    let mut r: Vec<&'a str> = Vec::new();
    let mut i: usize = 0;
    proof {
        assert(s@.skip(0) =~= s@);
        assert(texts(r@) + words(s@) =~= words(s@));
    }
    while i < n
        invariant
            i <= n == v.len(),
            v@ == s@,
            texts(r@) + words(s@.skip(i as int)) == words(s@),
        decreases n - i,
    {
        let ghost rest = s@.skip(i as int);
        proof {
            assert(rest[0] == s@[i as int]);
            assert(rest.skip(1) =~= s@.skip(i + 1));
        }
        if char_is_space(v[i]) {
            proof {
                assert(trim_start(rest) == trim_start(s@.skip(i + 1)));
                assert(words(rest) == words(s@.skip(i + 1)));
            }
            i = i + 1;
        } else {
            let start: usize = i;
            let ghost before = r@;
            while i < n && !char_is_space(v[i])
                invariant
                    start <= i <= n == v.len(),
                    v@ == s@,
                    rest == s@.skip(start as int),
                    word_len(rest) == (i - start) + word_len(s@.skip(i as int)),
                decreases n - i,
            {
                proof {
                    assert(s@.skip(i as int).skip(1) =~= s@.skip(i + 1));
                }
                i = i + 1;
            }
            proof {
                assert(word_len(s@.skip(i as int)) == 0);
            }
            let word = s.substring_char(start, i);
            r.push(word);
            proof {
                let len = i - start;
                assert(trim_start(rest) == rest);
                lemma_word_len(rest);
                assert(rest.take(len) =~= word@);
                assert(rest.skip(len) =~= s@.skip(i as int));
                assert(texts(r@) =~= texts(before).push(word@));
                assert(texts(before) + (seq![word@] + words(s@.skip(i as int))) =~= texts(
                    before,
                ).push(word@) + words(s@.skip(i as int)));
            }
        }
    }
    proof {
        assert(s@.skip(i as int) =~= Seq::<char>::empty());
        assert(trim_start(Seq::<char>::empty()).len() == 0);
        assert(texts(r@) + words(Seq::<char>::empty()) =~= texts(r@));
    }
    r
}

// ------------------------------------------------------------------- numerals

/// The value of a digit in a base up to sixteen; sixteen where `c` is no digit.
pub open spec fn digit_value(c: char) -> nat {
    if '0' <= c <= '9' {
        (c as u32 - '0' as u32) as nat
    } else if 'a' <= c <= 'f' {
        (c as u32 - 'a' as u32 + 10) as nat
    } else if 'A' <= c <= 'F' {
        (c as u32 - 'A' as u32 + 10) as nat
    } else {
        16
    }
}

/// Whether every character is a digit of the base.
pub open spec fn all_digits(s: Seq<char>, radix: nat) -> bool {
    forall|i: int| 0 <= i < s.len() ==> digit_value(#[trigger] s[i]) < radix
}

/// The number that a row of digits stands for.
pub open spec fn digits_value(s: Seq<char>, radix: nat) -> nat
    decreases s.len(),
{
    if s.len() == 0 {
        0
    } else {
        digits_value(s.drop_last(), radix) * radix + digit_value(s.last())
    }
}

/// The number written in `s`: one or more digits after at most one `+`, no greater than `max`.
pub open spec fn parsed_number(s: Seq<char>, radix: nat, max: nat) -> Option<nat> {
    let digits = if s.len() > 0 && s[0] == '+' {
        s.skip(1)
    } else {
        s
    };
    if digits.len() > 0 && all_digits(digits, radix) && digits_value(digits, radix) <= max {
        Some(digits_value(digits, radix))
    } else {
        None
    }
}

/// The digits of `n` in the base, most significant first, with lower-case letters.
pub open spec fn numeral(n: nat, radix: nat) -> Seq<char>
    decreases n,
    via numeral_shrinks
{
    if n < radix || radix < 2 {
        seq![digit_char(n)]
    } else {
        numeral(n / radix, radix).push(digit_char(n % radix))
    }
}

#[via_fn]
proof fn numeral_shrinks(n: nat, radix: nat) {
    if n >= radix && radix >= 2 {
        assert(n / radix < n) by (nonlinear_arith)
            requires
                n >= radix >= 2,
        ;
    }
}

/// The character of one digit.
pub open spec fn digit_char(d: nat) -> char {
    if d < 10 {
        (d + '0' as u32) as u32 as char
    } else {
        (d - 10 + 'a' as u32) as u32 as char
    }
}

/// `n` in decimal.
pub open spec fn decimal(n: nat) -> Seq<char> {
    numeral(n, 10)
}

fn digit_of(c: char) -> (d: u64)
    ensures
        d == digit_value(c),
{
    if '0' <= c && c <= '9' {
        c as u64 - '0' as u64
    } else if 'a' <= c && c <= 'f' {
        c as u64 - 'a' as u64 + 10
    } else if 'A' <= c && c <= 'F' {
        c as u64 - 'A' as u64 + 10
    } else {
        16
    }
}

proof fn lemma_digits_grow(s: Seq<char>, i: int, radix: nat)
    requires
        0 <= i <= s.len(),
        radix >= 1,
    ensures
        digits_value(s.take(i), radix) <= digits_value(s, radix),
    decreases s.len(),
{
    if i == s.len() {
        assert(s.take(i) =~= s);
    } else {
        lemma_digits_grow(s.drop_last(), i, radix);
        assert(s.drop_last().take(i) =~= s.take(i));
        let p = digits_value(s.drop_last(), radix);
        assert(p <= p * radix) by (nonlinear_arith)
            requires
                radix >= 1,
        ;
    }
}

/// Reads a number in the base: one or more digits after at most one `+`, up to `max`.
pub fn parse_number(s: &str, radix: u64, max: u64) -> (r: Option<u64>)
    requires
        2 <= radix <= 16,
    ensures
        r.is_some() <==> parsed_number(s@, radix as nat, max as nat).is_some(),
        r matches Some(n) ==> parsed_number(s@, radix as nat, max as nat) == Some(n as nat),
{
    let v = chars_of(s);
    let n: usize = v.len();
    let lo: usize = if n > 0 && v[0] == '+' {
        1
    } else {
        0
    };
    let ghost digits = s@.skip(lo as int);
    proof {
        assert(s@.skip(0) =~= s@);
        assert(digits.take(0) =~= Seq::<char>::empty());
    }
    if lo == n {
        return None;
    }
    let mut value: u64 = 0;
    let mut i: usize = lo;
    while i < n
        invariant
            lo <= i <= n == v.len(),
            lo < n,
            v@ == s@,
            2 <= radix <= 16,
            digits == s@.skip(lo as int),
            lo == if s@.len() > 0 && s@[0] == '+' { 1int } else { 0int },
            lo == 0 ==> digits == s@,
            forall|j: int| 0 <= j < i - lo ==> digit_value(#[trigger] digits[j]) < radix,
            value == digits_value(digits.take(i - lo), radix as nat),
            value <= max,
        decreases n - i,
    {
        let d: u64 = digit_of(v[i]);
        proof {
            assert(digits[i - lo] == s@[i as int]);
            assert(digits.take(i - lo + 1).drop_last() =~= digits.take(i - lo));
            assert(digits.take(i - lo + 1).last() == s@[i as int]);
            lemma_digits_grow(digits, i - lo + 1, radix as nat);
        }
        if d >= radix {
            return None;
        }
        proof {
            assert(value * radix <= 0xffff_ffff_ffff_ffff * 16) by (nonlinear_arith)
                requires
                    value <= 0xffff_ffff_ffff_ffff,
                    radix <= 16,
            ;
        }
        let wide: u128 = value as u128 * radix as u128 + d as u128;
        if wide > max as u128 {
            return None;
        }
        value = wide as u64;
        i = i + 1;
    }
    proof {
        assert(digits.take(n - lo) =~= digits);
    }
    Some(value)
}

/// Appends the digits of `n` in the base.
pub fn push_numeral(out: &mut String, n: u64, radix: u64)
    requires
        2 <= radix <= 16,
    ensures
        final(out)@ == old(out)@ + numeral(n as nat, radix as nat),
    decreases n,
{
    let ghost before = out@;
    if n >= radix {
        proof {
            assert(n / radix < n) by (nonlinear_arith)
                requires
                    n >= radix >= 2,
            ;
        }
        push_numeral(out, n / radix, radix);
    }
    let d: u64 = n % radix;
    let base: u64 = if d < 10 {
        '0' as u64
    } else {
        'a' as u64 - 10
    };
    proof {
        if n < radix {
            assert(d == n) by (nonlinear_arith)
                requires
                    0 <= n < radix,
                    d == n % radix,
            ;
        }
    }
    let b: u8 = (d + base) as u8;
    out.push(b as char);
    proof {
        assert(out@ =~= before + numeral(n as nat, radix as nat));
    }
}

/// `n` in decimal.
pub fn decimal_text(n: u64) -> (s: String)
    ensures
        s@ == decimal(n as nat),
{
    let mut s = String::new();
    push_numeral(&mut s, n, 10);
    proof {
        assert(s@ =~= decimal(n as nat));
    }
    s
}

/// The pieces with `sep` between each two.
pub open spec fn joined_with(parts: Seq<Seq<char>>, sep: Seq<char>) -> Seq<char>
    decreases parts.len(),
{
    if parts.len() == 0 {
        Seq::empty()
    } else if parts.len() == 1 {
        parts[0]
    } else {
        joined_with(parts.drop_last(), sep) + sep + parts.last()
    }
}

/// `a` followed by `b`.
pub fn cat(a: &str, b: &str) -> (r: String)
    ensures
        r@ == a@ + b@,
{
    let mut r = a.to_owned();
    r.append(b);
    r
}

/// `a`, `b` and `c` in a row.
pub fn cat3(a: &str, b: &str, c: &str) -> (r: String)
    ensures
        r@ == a@ + b@ + c@,
{
    let mut r = a.to_owned();
    r.append(b);
    r.append(c);
    r
}

/// Five texts in a row.
pub fn cat5(a: &str, b: &str, c: &str, d: &str, e: &str) -> (r: String)
    ensures
        r@ == a@ + b@ + c@ + d@ + e@,
{
    let mut r = cat3(a, b, c);
    r.append(d);
    r.append(e);
    r
}

// ----------------------------------------------------------------------- laws

/// A digit's character stands for the digit.
pub proof fn lemma_digit_char(d: nat)
    requires
        d < 16,
    ensures
        digit_value(digit_char(d)) == d,
        digit_char(d) != '+',
{
}

/// Writing a number and reading the digits gives the number back.
pub proof fn numeral_reads_back(n: nat, radix: nat, max: nat)
    requires
        2 <= radix <= 16,
        n <= max,
    ensures
        parsed_number(numeral(n, radix), radix, max) == Some(n),
{
    lemma_numeral(n, radix);
}

/// A numeral is one or more digits, none a sign, and stands for its number.
pub proof fn lemma_numeral(n: nat, radix: nat)
    requires
        2 <= radix <= 16,
    ensures
        numeral(n, radix).len() > 0,
        numeral(n, radix)[0] != '+',
        all_digits(numeral(n, radix), radix),
        digits_value(numeral(n, radix), radix) == n,
    decreases n,
{
    let s = numeral(n, radix);
    if n < radix {
        lemma_digit_char(n);
        assert(s.drop_last() =~= Seq::<char>::empty());
        assert(digits_value(s.drop_last(), radix) == 0);
        assert(0 * radix == 0) by (nonlinear_arith);
    } else {
        assert(n / radix < n) by (nonlinear_arith)
            requires
                n >= radix >= 2,
        ;
        assert(n % radix < radix && n == (n / radix) * radix + n % radix) by (nonlinear_arith)
            requires
                radix >= 2,
        ;
        lemma_numeral(n / radix, radix);
        lemma_digit_char(n % radix);
        let t = numeral(n / radix, radix);
        assert(s.drop_last() =~= t);
        assert(s[0] == t[0]);
        assert forall|i: int| 0 <= i < s.len() implies digit_value(#[trigger] s[i]) < radix by {
            if i < t.len() {
                assert(s[i] == t[i]);
            }
        }
    }
}

/// A decimal numeral has no leading zero but for zero itself.
pub proof fn lemma_no_leading_zero(n: nat)
    ensures
        decimal(n).len() == 1 || decimal(n)[0] != '0',
    decreases n,
{
    if n >= 10 {
        lemma_no_leading_zero(n / 10);
        lemma_numeral(n / 10, 10);
        let t = decimal(n / 10);
        assert(decimal(n)[0] == t[0]);
        if t.len() == 1 {
            assert(t.drop_last() =~= Seq::<char>::empty());
            assert(digits_value(t.drop_last(), 10) == 0);
            assert(digit_value(t[0]) == n / 10);
        }
    }
}

/// The piece before the first separator, and then the pieces of what follows it.
pub proof fn lemma_pieces_head(a: Seq<char>, c: char, rest: Seq<char>)
    requires
        !a.contains(c),
    ensures
        pieces(a + seq![c] + rest, c) == seq![a] + pieces(rest, c),
        pieces(a, c) == seq![a],
{
    let s = a + seq![c] + rest;
    assert forall|j: int| 0 <= j < a.len() implies s[j] != c by {
        assert(s[j] == a[j]);
        assert(a.contains(a[j]));
    }
    lemma_first_index_unique(s, c, a.len() as int);
    assert(s.take(a.len() as int) =~= a);
    assert(s.skip((a.len() + 1) as int) =~= rest);
    assert forall|j: int| 0 <= j < a.len() implies a[j] != c by {
        assert(a.contains(a[j]));
    }
    lemma_first_index_unique(a, c, a.len() as int);
}

// ----------------------------------------------------------------------- laws

/// The sixteen digits, in order.
pub proof fn digits_are_the_usual_ones(d: nat)
    requires
        d < 16,
    ensures
        digit_char(d) == seq![
            '0',
            '1',
            '2',
            '3',
            '4',
            '5',
            '6',
            '7',
            '8',
            '9',
            'a',
            'b',
            'c',
            'd',
            'e',
            'f',
        ][d as int],
        parsed_number(seq![digit_char(d)], 16, 15) == Some(d),
        parsed_number(
            seq![seq![
                '0',
                '1',
                '2',
                '3',
                '4',
                '5',
                '6',
                '7',
                '8',
                '9',
                'A',
                'B',
                'C',
                'D',
                'E',
                'F',
            ][d as int]],
            16,
            15,
        ) == Some(d),
        parsed_number(seq![digit_char(d)], 10, 15) == if d <= 9 {
            Some(d)
        } else {
            None
        },
{
    let lower = seq!['0', '1', '2', '3', '4', '5', '6', '7', '8', '9', 'a', 'b', 'c', 'd', 'e', 'f'];
    let upper = seq!['0', '1', '2', '3', '4', '5', '6', '7', '8', '9', 'A', 'B', 'C', 'D', 'E', 'F'];
    assert(digit_value(lower[d as int]) == d);
    assert(digit_value(upper[d as int]) == d);
    assert(digit_char(d) == lower[d as int]);
    let s = seq![lower[d as int]];
    let t = seq![upper[d as int]];
    assert(s.drop_last() =~= Seq::<char>::empty());
    assert(t.drop_last() =~= Seq::<char>::empty());
    assert(digits_value(s.drop_last(), 16) == 0);
    assert(digits_value(t.drop_last(), 16) == 0);
    assert(digits_value(s.drop_last(), 10) == 0);
    assert(digits_value(s, 16) == d);
    assert(digits_value(t, 16) == d);
    assert(digits_value(s, 10) == d);
    assert(s[0] == lower[d as int]);
    assert(t[0] == upper[d as int]);
    if d > 9 {
        assert(digit_value(s[0]) >= 10);
        assert(!all_digits(s, 10));
    }
}

/// What reads as a number holds digits and, in front of them, a plus sign at most; each digit
/// is below the radix.
pub proof fn numbers_hold_only_digits(s: Seq<char>, radix: nat, max: nat, i: int)
    requires
        2 <= radix <= 16,
        parsed_number(s, radix, max).is_some(),
        0 <= i < s.len(),
    ensures
        s.len() > 0,
        '0' <= s[i] <= '9' || 'a' <= s[i] <= 'f' || 'A' <= s[i] <= 'F' || (i == 0 && s.len() > 1
            && s[i] == '+'),
        radix <= 10 ==> '0' <= s[i] <= '9' || s[i] == '+',
        parsed_number(s, radix, max)->0 <= max,
{
    let digits = if s[0] == '+' {
        s.skip(1)
    } else {
        s
    };
    let k = if s[0] == '+' {
        i - 1
    } else {
        i
    };
    if k >= 0 {
        assert(digits[k] == s[i]);
        assert(digit_value(digits[k]) < radix);
    }
}

/// Nothing reads as no number; and a numeral that is too great for its place is no number.
pub proof fn numbers_keep_their_bounds(n: nat, radix: nat, max: nat)
    requires
        2 <= radix <= 16,
    ensures
        parsed_number(Seq::<char>::empty(), radix, max).is_none(),
        parsed_number(numeral(n, radix), radix, max) == if n <= max {
            Some(n)
        } else {
            None
        },
        parsed_number(seq!['+'] + numeral(n, radix), radix, max) == parsed_number(
            numeral(n, radix),
            radix,
            max,
        ),
{
    lemma_numeral(n, radix);
    assert((seq!['+'] + numeral(n, radix)).skip(1) =~= numeral(n, radix));
}

/// One more digit makes a numeral as many times greater as the radix says, and adds the digit.
pub proof fn numerals_grow_by_digits(n: nat, radix: nat, d: nat)
    requires
        2 <= radix <= 16,
        n > 0,
        d < radix,
    ensures
        numeral(n * radix + d, radix) == numeral(n, radix).push(digit_char(d)),
{
    let m = n * radix + d;
    assert(m >= radix) by (nonlinear_arith)
        requires
            m == n * radix + d,
            n > 0,
            d >= 0,
    ;
    vstd::arithmetic::div_mod::lemma_fundamental_div_mod_converse(
        m as int,
        radix as int,
        n as int,
        d as int,
    );
}

/// Two texts are the same up to case just where they are as long and each two characters are
/// the same, or the same ASCII letter in the two cases.
pub proof fn case_means_letters_only(a: Seq<char>, b: Seq<char>)
    ensures
        same_ignoring_case(a, b) <==> a.len() == b.len() && forall|i: int|
            0 <= i < a.len() ==> (#[trigger] a[i] == b[i] || ('A' <= a[i] <= 'Z' && b[i] as u32
                == a[i] as u32 + 32) || ('A' <= b[i] <= 'Z' && a[i] as u32 == b[i] as u32 + 32)),
{
    if same_ignoring_case(a, b) {
        assert(lower(a).len() == lower(b).len());
        assert forall|i: int| 0 <= i < a.len() implies (#[trigger] a[i] == b[i] || ('A' <= a[i]
            <= 'Z' && b[i] as u32 == a[i] as u32 + 32) || ('A' <= b[i] <= 'Z' && a[i] as u32
            == b[i] as u32 + 32)) by {
            assert(lower(a)[i] == lower(b)[i]);
        }
    } else if a.len() == b.len() {
        if forall|i: int|
            0 <= i < a.len() ==> (#[trigger] a[i] == b[i] || ('A' <= a[i] <= 'Z' && b[i] as u32
                == a[i] as u32 + 32) || ('A' <= b[i] <= 'Z' && a[i] as u32 == b[i] as u32 + 32)) {
            assert forall|i: int| 0 <= i < a.len() implies lower(a)[i] == lower(b)[i] by {
                assert(a[i] == b[i] || ('A' <= a[i] <= 'Z' && b[i] as u32 == a[i] as u32 + 32) || (
                'A' <= b[i] <= 'Z' && a[i] as u32 == b[i] as u32 + 32));
            }
            assert(lower(a) =~= lower(b));
        }
    }
}

/// Blanks, tabs and line ends are white space; no other ASCII character is.
pub proof fn ascii_space(c: char)
    requires
        (c as u32) < 128,
    ensures
        is_space(c) <==> c == ' ' || c == '\t' || c == '\n' || c == '\r' || c == '\u{b}' || c
            == '\u{c}',
{
}

/// White space around a text is taken off, and nothing else: what is left is the text, where it
/// neither begins nor ends with white space.
pub proof fn trimming_takes_off_padding(a: Seq<char>, s: Seq<char>, b: Seq<char>)
    requires
        forall|i: int| 0 <= i < a.len() ==> is_space(#[trigger] a[i]),
        forall|i: int| 0 <= i < b.len() ==> is_space(#[trigger] b[i]),
        s.len() > 0 ==> !is_space(s[0]) && !is_space(s.last()),
    ensures
        trimmed(a + s + b) == s,
{
    lemma_trim_front(a, s + b);
    assert(a + s + b =~= a + (s + b));
    if s.len() > 0 {
        assert((s + b)[0] == s[0]);
        assert(trim_start(s + b) == s + b);
        lemma_trim_back(s, b);
    } else {
        assert(s + b =~= b + Seq::<char>::empty());
        lemma_trim_front(b, Seq::empty());
        assert(s =~= Seq::<char>::empty());
    }
}

proof fn lemma_trim_front(a: Seq<char>, s: Seq<char>)
    requires
        forall|i: int| 0 <= i < a.len() ==> is_space(#[trigger] a[i]),
    ensures
        trim_start(a + s) == trim_start(s),
    decreases a.len(),
{
    if a.len() == 0 {
        assert(a + s =~= s);
    } else {
        assert((a + s)[0] == a[0]);
        assert((a + s).skip(1) =~= a.skip(1) + s);
        lemma_trim_front(a.skip(1), s);
    }
}

proof fn lemma_trim_back(s: Seq<char>, b: Seq<char>)
    requires
        forall|i: int| 0 <= i < b.len() ==> is_space(#[trigger] b[i]),
        s.len() > 0,
        !is_space(s.last()),
    ensures
        trim_end(s + b) == s,
    decreases b.len(),
{
    if b.len() == 0 {
        assert(s + b =~= s);
    } else {
        assert((s + b).last() == b[b.len() - 1]);
        assert((s + b).drop_last() =~= s + b.drop_last());
        assert forall|i: int| 0 <= i < b.drop_last().len() implies is_space(
            #[trigger] b.drop_last()[i],
        ) by {
            assert(b.drop_last()[i] == b[i]);
        }
        lemma_trim_back(s, b.drop_last());
    }
}

/// Putting the separator back between the pieces of a text gives the text again, and no piece
/// holds it.
pub proof fn pieces_join_to_the_text(s: Seq<char>, c: char)
    ensures
        joined_with(pieces(s, c), seq![c]) == s,
        pieces(s, c).len() > 0,
        forall|i: int| 0 <= i < pieces(s, c).len() ==> !(#[trigger] pieces(s, c)[i]).contains(c),
    decreases s.len(),
{
    lemma_first_index(s, c);
    let i = first_index(s, c);
    let p = pieces(s, c);
    if i < s.len() {
        let rest = s.skip(i + 1);
        let q = pieces(rest, c);
        pieces_join_to_the_text(rest, c);
        lemma_join_head(s.take(i), q, seq![c]);
        assert(s.take(i) + seq![c] + rest =~= s);
        assert forall|k: int| 0 <= k < p.len() implies !(#[trigger] p[k]).contains(c) by {
            if k > 0 {
                assert(p[k] == q[k - 1]);
            } else {
                assert forall|j: int| 0 <= j < s.take(i).len() implies s.take(i)[j] != c by {
                    assert(s.take(i)[j] == s[j]);
                }
            }
        }
    } else {
        assert(p =~= seq![s]);
    }
}

proof fn lemma_join_head(a: Seq<char>, q: Seq<Seq<char>>, sep: Seq<char>)
    requires
        q.len() > 0,
    ensures
        joined_with(seq![a] + q, sep) == a + sep + joined_with(q, sep),
    decreases q.len(),
{
    let all = seq![a] + q;
    if q.len() == 1 {
        assert(all.drop_last() =~= seq![a]);
        assert(all.last() == q[0]);
        assert(joined_with(seq![a], sep) == a);
        assert(joined_with(q, sep) == q[0]);
    } else {
        assert(all.drop_last() =~= seq![a] + q.drop_last());
        assert(all.last() == q.last());
        lemma_join_head(a, q.drop_last(), sep);
        let j = joined_with(q.drop_last(), sep);
        assert(joined_with(q, sep) == j + sep + q.last());
        assert((a + sep + j) + sep + q.last() =~= a + sep + (j + sep + q.last()));
    }
}

/// A text is split into words at white space, however much of it there is.
pub proof fn words_stand_between_space(a: Seq<char>, w: Seq<char>, rest: Seq<char>)
    requires
        forall|i: int| 0 <= i < a.len() ==> is_space(#[trigger] a[i]),
        w.len() > 0,
        forall|i: int| 0 <= i < w.len() ==> !is_space(#[trigger] w[i]),
        rest.len() > 0 ==> is_space(rest[0]),
    ensures
        words(a + w + rest) == seq![w] + words(rest),
        words(a).len() == 0,
{
    let s = a + w + rest;
    lemma_trim_front(a, w + rest);
    assert(s =~= a + (w + rest));
    assert((w + rest)[0] == w[0]);
    assert(trim_start(w + rest) == w + rest);
    lemma_word_is(w, rest);
    assert((w + rest).take(w.len() as int) =~= w);
    assert((w + rest).skip(w.len() as int) =~= rest);
    lemma_trim_front(a, Seq::empty());
    assert(a + Seq::<char>::empty() =~= a);
}

proof fn lemma_word_is(w: Seq<char>, rest: Seq<char>)
    requires
        forall|i: int| 0 <= i < w.len() ==> !is_space(#[trigger] w[i]),
        rest.len() > 0 ==> is_space(rest[0]),
    ensures
        word_len(w + rest) == w.len(),
    decreases w.len(),
{
    if w.len() == 0 {
        assert(w + rest =~= rest);
    } else {
        assert((w + rest)[0] == w[0]);
        assert((w + rest).skip(1) =~= w.skip(1) + rest);
        assert forall|i: int| 0 <= i < w.skip(1).len() implies !is_space(#[trigger] w.skip(1)[i]) by {
            assert(w.skip(1)[i] == w[i + 1]);
        }
        lemma_word_is(w.skip(1), rest);
    }
}

/// White space is what Unicode calls so: the controls from tab to return, the space, and eleven
/// kinds of space beyond ASCII with their neighbours.
pub proof fn white_space_is_that_of_unicode(c: char)
    ensures
        is_space(c) <==> {
            let n = c as u32;
            (9 <= n <= 13) || n == 32 || n == 0x85 || n == 0xa0 || n == 0x1680 || (0x2000 <= n
                <= 0x200a) || n == 0x2028 || n == 0x2029 || n == 0x202f || n == 0x205f || n
                == 0x3000
        },
{
}

/// A text of white space alone is trimmed to nothing, and what is trimmed neither begins nor ends
/// with white space.
pub proof fn nothing_is_left_of_white_space(s: Seq<char>)
    ensures
        trimmed(s).len() > 0 ==> !is_space(trimmed(s)[0]) && !is_space(trimmed(s).last()),
        (forall|i: int| 0 <= i < s.len() ==> is_space(#[trigger] s[i])) ==> trimmed(s).len() == 0,
{
    lemma_trim_start_ends(s);
    lemma_trim_end_ends(trim_start(s));
    if forall|i: int| 0 <= i < s.len() ==> is_space(#[trigger] s[i]) {
        if trim_start(s).len() > 0 {
            let t = trim_start(s);
            assert(is_space(s[s.len() - t.len()]));
        }
    }
}

proof fn lemma_trim_start_ends(s: Seq<char>)
    ensures
        trim_start(s).len() <= s.len(),
        trim_start(s) == s.skip(s.len() - trim_start(s).len()),
        trim_start(s).len() > 0 ==> !is_space(trim_start(s)[0]),
    decreases s.len(),
{
    if s.len() > 0 && is_space(s[0]) {
        lemma_trim_start_ends(s.skip(1));
        let t = trim_start(s);
        assert(s.skip(1).skip(s.skip(1).len() - t.len()) =~= s.skip(s.len() - t.len()));
    } else {
        assert(s.skip(0) =~= s);
    }
}

proof fn lemma_trim_end_ends(s: Seq<char>)
    ensures
        trim_end(s).len() <= s.len(),
        trim_end(s) == s.take(trim_end(s).len() as int),
        trim_end(s).len() > 0 ==> !is_space(trim_end(s).last()),
        s.len() > 0 && !is_space(s[0]) ==> trim_end(s).len() > 0,
    decreases s.len(),
{
    if s.len() > 0 && is_space(s.last()) {
        lemma_trim_end_ends(s.drop_last());
        let t = trim_end(s);
        assert(s.drop_last().take(t.len() as int) =~= s.take(t.len() as int));
    } else {
        assert(s.take(s.len() as int) =~= s);
    }
}

/// A character is taken off an end of a text as often as it stands there, and nothing else is.
pub proof fn only_the_character_is_taken_off(s: Seq<char>, c: char)
    ensures
        without_leading(seq![c] + s, c) == without_leading(s, c),
        without_trailing(s + seq![c], c) == without_trailing(s, c),
        s.len() > 0 && s[0] != c ==> without_leading(s, c) == s,
        s.len() > 0 && s.last() != c ==> without_trailing(s, c) == s,
        without_leading(Seq::empty(), c).len() == 0,
        without_trailing(Seq::empty(), c).len() == 0,
{
    assert((seq![c] + s).skip(1) =~= s);
    assert((s + seq![c]).drop_last() =~= s);
}

} // verus!
