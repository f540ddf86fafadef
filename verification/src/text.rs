//! Character and string utilities shared by the parsing and formatting
//! code: conversion between `&str` and `Vec<char>`, whitespace trimming,
//! splitting, joining, and decimal/hexadecimal numerals.

use vstd::prelude::*;
use vstd::std_specs::iter::IteratorSpec;

verus! {

broadcast use vstd::string::group_string_axioms;

/// Relies on `String::push`: appends exactly one character at the end.
#[verifier::external_body]
pub(crate) fn push_char(s: &mut String, c: char)
    ensures
        final(s)@ == old(s)@.push(c),
{
    s.push(c)
}

/// The characters a host line may be surrounded by that chunk trimming
/// removes: the Unicode white-space code points.
pub open spec fn is_space(c: char) -> bool {
    c == ' ' || c == '\t' || c == '\n' || c == '\r' || c == '\u{b}' || c == '\u{c}'
        || c == '\u{85}' || c == '\u{a0}' || c == '\u{1680}' || ('\u{2000}' <= c && c
        <= '\u{200a}') || c == '\u{2028}' || c == '\u{2029}' || c == '\u{202f}' || c == '\u{205f}'
        || c == '\u{3000}'
}

/// Executable form of `is_space`.
pub fn char_is_space(c: char) -> (r: bool)
    ensures
        r == is_space(c),
{
    c == ' ' || c == '\t' || c == '\n' || c == '\r' || c == '\u{b}' || c == '\u{c}'
        || c == '\u{85}' || c == '\u{a0}' || c == '\u{1680}' || ('\u{2000}' <= c && c
        <= '\u{200a}') || c == '\u{2028}' || c == '\u{2029}' || c == '\u{202f}' || c == '\u{205f}'
        || c == '\u{3000}'
}

/// The characters of a string slice, in order.
pub fn chars_of(s: &str) -> (r: Vec<char>)
    ensures
        r@ == s@,
{
    let mut r: Vec<char> = Vec::new();
    for c in it: s.chars()
        invariant
            it.seq() == s@,
            r@ == s@.take(it.index()),
    {
        r.push(c);
        assert(r@ =~= s@.take(it.index() + 1));
    }
    assert(r@ =~= s@);
    r
}

/// A new string holding the characters `v[from..to]`.
pub fn string_from_range(v: &Vec<char>, from: usize, to: usize) -> (r: String)
    requires
        from <= to <= v@.len(),
    ensures
        r@ == v@.subrange(from as int, to as int),
{
    let mut r = String::new();
    let mut i: usize = from;
    while i < to
        invariant
            from <= i <= to <= v@.len(),
            r@ == v@.subrange(from as int, i as int),
        decreases to - i,
    {
        push_char(&mut r, v[i]);
        assert(v@.subrange(from as int, i as int).push(v@[i as int]) =~= v@.subrange(
            from as int,
            i + 1,
        ));
        i = i + 1;
    }
    r
}

/// A new string holding exactly the characters of `v`.
pub fn string_from_chars(v: &Vec<char>) -> (r: String)
    ensures
        r@ == v@,
{
    let r = string_from_range(v, 0, v.len());
    assert(v@.subrange(0, v@.len() as int) =~= v@);
    r
}

/// Whether two string slices hold the same characters.
pub fn str_eq(a: &str, b: &str) -> (r: bool)
    ensures
        r == (a@ == b@),
{
    let av = chars_of(a);
    let bv = chars_of(b);
    chars_eq(&av, &bv)
}

/// Whether two character vectors are equal.
pub fn chars_eq(a: &Vec<char>, b: &Vec<char>) -> (r: bool)
    ensures
        r == (a@ == b@),
{
    if a.len() != b.len() {
        assert(a@.len() != b@.len());
        return false;
    }
    let mut i: usize = 0;
    while i < a.len()
        invariant
            i <= a@.len(),
            a@.len() == b@.len(),
            forall|j: int| 0 <= j < i ==> a@[j] == b@[j],
        decreases a@.len() - i,
    {
        if a[i] != b[i] {
            return false;
        }
        i = i + 1;
    }
    assert(a@ =~= b@);
    true
}

/// Whether `v` holds the character `c`.
pub fn chars_contains(v: &Vec<char>, c: char) -> (r: bool)
    ensures
        r == v@.contains(c),
{
    let mut i: usize = 0;
    while i < v.len()
        invariant
            i <= v@.len(),
            forall|j: int| 0 <= j < i ==> v@[j] != c,
        decreases v@.len() - i,
    {
        if v[i] == c {
            return true;
        }
        i = i + 1;
    }
    false
}

/// Whether `s` begins with the characters of `prefix`.
pub fn chars_start_with(s: &Vec<char>, prefix: &Vec<char>) -> (r: bool)
    ensures
        r == (s@.len() >= prefix@.len() && s@.subrange(0, prefix@.len() as int) == prefix@),
{
    if s.len() < prefix.len() {
        return false;
    }
    let mut i: usize = 0;
    while i < prefix.len()
        invariant
            i <= prefix@.len() <= s@.len(),
            forall|j: int| 0 <= j < i ==> s@[j] == prefix@[j],
        decreases prefix@.len() - i,
    {
        if s[i] != prefix[i] {
            assert(s@.subrange(0, prefix@.len() as int)[i as int] != prefix@[i as int]);
            return false;
        }
        i = i + 1;
    }
    assert(s@.subrange(0, prefix@.len() as int) =~= prefix@);
    true
}

/// `s` with its leading white space removed.
pub open spec fn spec_trim_start(s: Seq<char>) -> Seq<char>
    decreases s.len(),
{
    if s.len() > 0 && is_space(s[0]) {
        spec_trim_start(s.drop_first())
    } else {
        s
    }
}

/// `s` with its trailing white space removed.
pub open spec fn spec_trim_end(s: Seq<char>) -> Seq<char>
    decreases s.len(),
{
    if s.len() > 0 && is_space(s.last()) {
        spec_trim_end(s.drop_last())
    } else {
        s
    }
}

/// `s` with white space removed at both ends.
pub open spec fn spec_trim(s: Seq<char>) -> Seq<char> {
    spec_trim_end(spec_trim_start(s))
}

proof fn lemma_trim_start_skip(s: Seq<char>, k: int)
    requires
        0 <= k <= s.len(),
        forall|j: int| 0 <= j < k ==> is_space(s[j]),
        k == s.len() || !is_space(s[k]),
    ensures
        spec_trim_start(s) == s.skip(k),
    decreases k,
{
    if k == 0 {
        assert(s.skip(0) =~= s);
    } else {
        lemma_trim_start_skip(s.drop_first(), k - 1);
        assert(s.drop_first().skip(k - 1) =~= s.skip(k));
    }
}

proof fn lemma_trim_end_take(s: Seq<char>, k: int)
    requires
        0 <= k <= s.len(),
        forall|j: int| k <= j < s.len() ==> is_space(s[j]),
        k == 0 || !is_space(s[k - 1]),
    ensures
        spec_trim_end(s) == s.take(k),
    decreases s.len() - k,
{
    if k == s.len() {
        assert(s.take(k) =~= s);
    } else {
        lemma_trim_end_take(s.drop_last(), k);
        assert(s.drop_last().take(k) =~= s.take(k));
    }
}

/// A new string holding `v[from..to]` with white space removed at both ends.
pub fn string_from_range_trimmed(v: &Vec<char>, from: usize, to: usize) -> (r: String)
    requires
        from <= to <= v@.len(),
    ensures
        r@ == spec_trim(v@.subrange(from as int, to as int)),
{
    let ghost piece = v@.subrange(from as int, to as int);
    let mut lo: usize = from;
    while lo < to && char_is_space(v[lo])
        invariant
            from <= lo <= to <= v@.len(),
            forall|j: int| from <= j < lo ==> is_space(v@[j]),
        decreases to - lo,
    {
        lo = lo + 1;
    }
    proof {
        lemma_trim_start_skip(piece, lo - from);
        assert(piece.skip(lo - from) =~= v@.subrange(lo as int, to as int));
    }
    let mut hi: usize = to;
    while hi > lo && char_is_space(v[hi - 1])
        invariant
            from <= lo <= hi <= to <= v@.len(),
            forall|j: int| hi <= j < to ==> is_space(v@[j]),
        decreases hi,
    {
        hi = hi - 1;
    }
    proof {
        let tail = v@.subrange(lo as int, to as int);
        lemma_trim_end_take(tail, hi - lo);
        assert(tail.take(hi - lo) =~= v@.subrange(lo as int, hi as int));
    }
    string_from_range(v, lo, hi)
}

/// The pieces of `s` separated by `sep`, walking from position `i` with the
/// current piece open since `start`.
pub open spec fn spec_split_from(s: Seq<char>, sep: char, start: int, i: int) -> Seq<Seq<char>>
    decreases s.len() - i,
{
    if start < 0 || i < start || i > s.len() {
        Seq::empty()
    } else if i == s.len() {
        seq![s.subrange(start, s.len() as int)]
    } else if s[i] == sep {
        seq![s.subrange(start, i)] + spec_split_from(s, sep, i + 1, i + 1)
    } else {
        spec_split_from(s, sep, start, i + 1)
    }
}

/// The pieces of `s` separated by `sep`; a separator at either end or two in
/// a row yield empty pieces, as `str::split` has it.
pub open spec fn spec_split(s: Seq<char>, sep: char) -> Seq<Seq<char>> {
    spec_split_from(s, sep, 0, 0)
}

/// The pieces of `v` separated by `sep`, each as its own vector.
pub fn split_by_char(v: &Vec<char>, sep: char) -> (r: Vec<Vec<char>>)
    ensures
        r.deep_view() == spec_split(v@, sep),
{
    let mut r: Vec<Vec<char>> = Vec::new();
    let mut start: usize = 0;
    let mut i: usize = 0;
    while i < v.len()
        invariant
            start <= i <= v@.len(),
            spec_split(v@, sep) == r.deep_view() + spec_split_from(
                v@,
                sep,
                start as int,
                i as int,
            ),
        decreases v@.len() - i,
    {
        if v[i] == sep {
            let piece = chars_range(v, start, i);
            let ghost prev = r.deep_view();
            r.push(piece);
            assert(r.deep_view() =~~= prev.push(v@.subrange(start as int, i as int)));
            assert(prev.push(v@.subrange(start as int, i as int)) + spec_split_from(
                v@,
                sep,
                i + 1,
                i + 1,
            ) =~= prev + (seq![v@.subrange(start as int, i as int)] + spec_split_from(
                v@,
                sep,
                i + 1,
                i + 1,
            )));
            start = i + 1;
        }
        i = i + 1;
    }
    let piece = chars_range(v, start, v.len());
    let ghost prev = r.deep_view();
    r.push(piece);
    assert(r.deep_view() =~~= prev.push(v@.subrange(start as int, v@.len() as int)));
    assert(prev.push(v@.subrange(start as int, v@.len() as int)) =~= prev + seq![v@.subrange(
        start as int,
        v@.len() as int,
    )]);
    r
}

/// The characters `v[from..to]` as a new vector.
pub fn chars_range(v: &Vec<char>, from: usize, to: usize) -> (r: Vec<char>)
    requires
        from <= to <= v@.len(),
    ensures
        r@ == v@.subrange(from as int, to as int),
{
    let mut r: Vec<char> = Vec::new();
    let mut i: usize = from;
    while i < to
        invariant
            from <= i <= to <= v@.len(),
            r@ == v@.subrange(from as int, i as int),
        decreases to - i,
    {
        r.push(v[i]);
        assert(v@.subrange(from as int, i as int).push(v@[i as int]) =~= v@.subrange(
            from as int,
            i + 1,
        ));
        i = i + 1;
    }
    r
}

/// One line of a line-terminated block: the slice `[start, end)` with a
/// carriage return directly before the line feed removed.
pub open spec fn spec_line_piece(s: Seq<char>, start: int, end: int) -> Seq<char> {
    if end > start && s[end - 1] == '\r' {
        s.subrange(start, end - 1)
    } else {
        s.subrange(start, end)
    }
}

/// The lines of `s` from position `i` on, with the current line open since
/// `start`: pieces split at line feeds, a carriage return directly before a
/// line feed stripped, and no empty final line after a closing line feed.
pub open spec fn spec_lines_from(s: Seq<char>, start: int, i: int) -> Seq<Seq<char>>
    decreases s.len() - i,
{
    if start < 0 || i < start || i > s.len() {
        Seq::empty()
    } else if i == s.len() {
        if start == s.len() {
            Seq::empty()
        } else {
            seq![s.subrange(start, s.len() as int)]
        }
    } else if s[i] == '\n' {
        seq![spec_line_piece(s, start, i)] + spec_lines_from(s, i + 1, i + 1)
    } else {
        spec_lines_from(s, start, i + 1)
    }
}

/// The lines of `s`, as `str::lines` yields them.
pub open spec fn spec_lines(s: Seq<char>) -> Seq<Seq<char>> {
    spec_lines_from(s, 0, 0)
}

/// The lines of `v`, each as its own vector.
pub fn split_lines(v: &Vec<char>) -> (r: Vec<Vec<char>>)
    ensures
        r.deep_view() == spec_lines(v@),
{
    let mut r: Vec<Vec<char>> = Vec::new();
    let mut start: usize = 0;
    let mut i: usize = 0;
    while i < v.len()
        invariant
            start <= i <= v@.len(),
            spec_lines(v@) == r.deep_view() + spec_lines_from(v@, start as int, i as int),
        decreases v@.len() - i,
    {
        if v[i] == '\n' {
            let end = if i > start && v[i - 1] == '\r' {
                i - 1
            } else {
                i
            };
            let piece = chars_range(v, start, end);
            let ghost prev = r.deep_view();
            r.push(piece);
            assert(piece@ == spec_line_piece(v@, start as int, i as int));
            assert(r.deep_view() =~~= prev.push(spec_line_piece(v@, start as int, i as int)));
            assert(prev.push(spec_line_piece(v@, start as int, i as int)) + spec_lines_from(
                v@,
                i + 1,
                i + 1,
            ) =~= prev + (seq![spec_line_piece(v@, start as int, i as int)] + spec_lines_from(
                v@,
                i + 1,
                i + 1,
            )));
            start = i + 1;
        }
        i = i + 1;
    }
    if start < v.len() {
        let piece = chars_range(v, start, v.len());
        let ghost prev = r.deep_view();
        r.push(piece);
        assert(r.deep_view() =~~= prev.push(v@.subrange(start as int, v@.len() as int)));
        assert(prev.push(v@.subrange(start as int, v@.len() as int)) =~= prev + seq![v@.subrange(
            start as int,
            v@.len() as int,
        )]);
    } else {
        assert(r.deep_view() =~= r.deep_view() + Seq::<Seq<char>>::empty());
    }
    r
}

/// The pieces joined, with `sep` between each neighbouring pair.
pub open spec fn spec_join(pieces: Seq<Seq<char>>, sep: Seq<char>) -> Seq<char>
    decreases pieces.len(),
{
    if pieces.len() == 0 {
        Seq::empty()
    } else if pieces.len() == 1 {
        pieces[0]
    } else {
        pieces[0] + sep + spec_join(pieces.drop_first(), sep)
    }
}

proof fn lemma_join_push(p: Seq<Seq<char>>, x: Seq<char>, sep: Seq<char>)
    ensures
        p.len() == 0 ==> spec_join(p.push(x), sep) == x,
        p.len() > 0 ==> spec_join(p.push(x), sep) == spec_join(p, sep) + sep + x,
    decreases p.len(),
{
    if p.len() == 0 {
        assert(p.push(x)[0] == x);
    } else {
        lemma_join_push(p.drop_first(), x, sep);
        assert(p.push(x).drop_first() =~= p.drop_first().push(x));
        assert(p.push(x)[0] == p[0]);
        if p.len() == 1 {
            assert(spec_join(p.push(x), sep) == p[0] + sep + x);
        } else {
            assert(p[0] + sep + (spec_join(p.drop_first(), sep) + sep + x) =~= (p[0] + sep
                + spec_join(p.drop_first(), sep)) + sep + x);
        }
    }
}

/// The lines joined with `sep` between each neighbouring pair.
pub fn join_with(lines: &Vec<String>, sep: &str) -> (r: String)
    ensures
        r@ == spec_join(lines.deep_view(), sep@),
{
    let mut r = String::new();
    let mut i: usize = 0;
    while i < lines.len()
        invariant
            i <= lines@.len(),
            lines.deep_view().len() == lines@.len(),
            forall|j: int| 0 <= j < lines@.len() ==> lines.deep_view()[j] == lines@[j]@,
            r@ == spec_join(lines.deep_view().take(i as int), sep@),
        decreases lines@.len() - i,
    {
        if i > 0 {
            r.append(sep);
        }
        r.append(lines[i].as_str());
        proof {
            let dv = lines.deep_view();
            lemma_join_push(dv.take(i as int), dv[i as int], sep@);
            assert(dv.take(i as int).push(dv[i as int]) =~= dv.take(i + 1));
        }
        i = i + 1;
    }
    assert(lines.deep_view().take(lines@.len() as int) =~= lines.deep_view());
    r
}

/// The numeral character of the digit value `d`.
pub open spec fn spec_digit_char(d: int) -> char {
    if d == 0 {
        '0'
    } else if d == 1 {
        '1'
    } else if d == 2 {
        '2'
    } else if d == 3 {
        '3'
    } else if d == 4 {
        '4'
    } else if d == 5 {
        '5'
    } else if d == 6 {
        '6'
    } else if d == 7 {
        '7'
    } else if d == 8 {
        '8'
    } else {
        '9'
    }
}

fn digit_char_of(d: u64) -> (c: char)
    requires
        d < 10,
    ensures
        c == spec_digit_char(d as int),
{
    if d == 0 {
        '0'
    } else if d == 1 {
        '1'
    } else if d == 2 {
        '2'
    } else if d == 3 {
        '3'
    } else if d == 4 {
        '4'
    } else if d == 5 {
        '5'
    } else if d == 6 {
        '6'
    } else if d == 7 {
        '7'
    } else if d == 8 {
        '8'
    } else {
        '9'
    }
}

/// The decimal numeral of `n`, without sign and without leading zeros.
pub open spec fn spec_dec_nat(n: nat) -> Seq<char>
    decreases n,
{
    if n < 10 {
        seq![spec_digit_char(n as int)]
    } else {
        spec_dec_nat(n / 10).push(spec_digit_char((n % 10) as int))
    }
}

/// The decimal numeral of `n`, a minus sign first when `n` is negative.
pub open spec fn spec_i32_string(n: int) -> Seq<char> {
    if n < 0 {
        seq!['-'] + spec_dec_nat((0 - n) as nat)
    } else {
        spec_dec_nat(n as nat)
    }
}

/// The decimal numeral of `n`, as `format!` would print it.
pub fn i32_to_string(n: i32) -> (r: String)
    ensures
        r@ == spec_i32_string(n as int),
{
    let neg = n < 0;
    let mut m: u64 = if n < 0 {
        (-(n as i64)) as u64
    } else {
        n as u64
    };
    let ghost m0 = m as nat;
    let mut digits: Vec<char> = Vec::new();
    if m == 0 {
        digits.push('0');
        assert(digits@.reverse() =~= seq![spec_digit_char(0)]);
    } else {
        while m > 0
            invariant
                m <= m0,
                m > 0 ==> spec_dec_nat(m0) == spec_dec_nat(m as nat) + digits@.reverse(),
                m == 0 ==> spec_dec_nat(m0) == digits@.reverse(),
            decreases m,
        {
            let d = m % 10;
            let ghost old_digits = digits@;
            let ghost old_m = m as nat;
            digits.push(digit_char_of(d));
            m = m / 10;
            proof {
                assert(digits@.reverse() =~= seq![spec_digit_char(d as int)]
                    + old_digits.reverse());
                if old_m < 10 {
                    assert(spec_dec_nat(old_m) == seq![spec_digit_char(old_m as int)]);
                    assert(seq![spec_digit_char(d as int)] + old_digits.reverse() =~= spec_dec_nat(
                        old_m,
                    ) + old_digits.reverse());
                } else {
                    assert(spec_dec_nat(old_m) == spec_dec_nat(old_m / 10).push(
                        spec_digit_char((old_m % 10) as int),
                    ));
                    assert(spec_dec_nat(old_m / 10) + (seq![spec_digit_char(d as int)]
                        + old_digits.reverse()) =~= spec_dec_nat(old_m) + old_digits.reverse());
                }
            }
        }
    }
    let mut r = String::new();
    if neg {
        push_char(&mut r, '-');
        assert(r@ =~= seq!['-']);
    }
    let ghost prefix = r@;
    assert(digits@.skip(digits@.len() as int).reverse() =~= Seq::<char>::empty());
    assert(prefix + Seq::<char>::empty() =~= prefix);
    let mut i: usize = digits.len();
    while i > 0
        invariant
            i <= digits@.len(),
            r@ == prefix + digits@.skip(i as int).reverse(),
        decreases i,
    {
        i = i - 1;
        push_char(&mut r, digits[i]);
        assert((prefix + digits@.skip(i + 1).reverse()).push(digits@[i as int]) =~= prefix
            + digits@.skip(i as int).reverse());
    }
    proof {
        assert(digits@.skip(0) =~= digits@);
        if m0 == 0 {
            assert(spec_dec_nat(m0) == seq![spec_digit_char(0)]);
        }
        if !neg {
            assert(Seq::<char>::empty() + spec_dec_nat(m0) =~= spec_dec_nat(m0));
            assert(prefix =~= Seq::<char>::empty());
        }
    }
    r
}

/// Whether `c` is a decimal digit.
pub open spec fn spec_is_dec_digit(c: char) -> bool {
    '0' as u32 <= c as u32 && c as u32 <= '9' as u32
}

/// Whether every character of `s` is a decimal digit.
pub open spec fn spec_all_dec_digits(s: Seq<char>) -> bool {
    forall|i: int| 0 <= i < s.len() ==> spec_is_dec_digit(s[i])
}

/// The value of the decimal digit string `s`, most significant first.
pub open spec fn spec_dec_val(s: Seq<char>) -> int
    decreases s.len(),
{
    if s.len() == 0 {
        0
    } else {
        spec_dec_val(s.drop_last()) * 10 + (s.last() as u32 - '0' as u32)
    }
}

/// Whether `c` is a hexadecimal digit, either case.
pub open spec fn spec_is_hex_digit(c: char) -> bool {
    spec_is_dec_digit(c) || ('a' as u32 <= c as u32 && c as u32 <= 'f' as u32) || ('A' as u32
        <= c as u32 && c as u32 <= 'F' as u32)
}

/// The value of the hexadecimal digit `c`.
pub open spec fn spec_hex_digit_val(c: char) -> int {
    if spec_is_dec_digit(c) {
        c as u32 - '0' as u32
    } else if 'a' as u32 <= c as u32 && c as u32 <= 'f' as u32 {
        c as u32 - 'a' as u32 + 10
    } else {
        c as u32 - 'A' as u32 + 10
    }
}

/// The value of the hexadecimal digit string `s`, most significant first.
pub open spec fn spec_hex_val(s: Seq<char>) -> int
    decreases s.len(),
{
    if s.len() == 0 {
        0
    } else {
        spec_hex_val(s.drop_last()) * 16 + spec_hex_digit_val(s.last())
    }
}

pub(crate) proof fn lemma_base_val_nonneg_grows(s: Seq<char>, base: int)
    requires
        base == 10 || base == 16,
        base == 10 ==> spec_all_dec_digits(s),
        base == 16 ==> forall|i: int| 0 <= i < s.len() ==> spec_is_hex_digit(s[i]),
    ensures
        base == 10 ==> spec_dec_val(s) >= 0,
        base == 16 ==> spec_hex_val(s) >= 0,
        base == 10 && s.len() > 0 ==> spec_dec_val(s) >= spec_dec_val(s.drop_last()),
        base == 16 && s.len() > 0 ==> spec_hex_val(s) >= spec_hex_val(s.drop_last()),
    decreases s.len(),
{
    if s.len() > 0 {
        assert(forall|i: int| 0 <= i < s.drop_last().len() ==> s.drop_last()[i] == s[i]);
        lemma_base_val_nonneg_grows(s.drop_last(), base);
        if base == 10 {
            assert(spec_is_dec_digit(s.last()));
            assert(spec_dec_val(s.drop_last()) * 10 >= spec_dec_val(s.drop_last())) by (nonlinear_arith)
                requires
                    spec_dec_val(s.drop_last()) >= 0,
            ;
        } else {
            assert(spec_is_hex_digit(s.last()));
            assert(spec_hex_digit_val(s.last()) >= 0);
            assert(spec_hex_val(s.drop_last()) * 16 >= spec_hex_val(s.drop_last())) by (nonlinear_arith)
                requires
                    spec_hex_val(s.drop_last()) >= 0,
            ;
        }
    }
}

pub(crate) fn is_dec_digit(c: char) -> (r: bool)
    ensures
        r == spec_is_dec_digit(c),
{
    let u = c as u32;
    '0' as u32 <= u && u <= '9' as u32
}

pub(crate) fn is_hex_digit(c: char) -> (r: bool)
    ensures
        r == spec_is_hex_digit(c),
{
    let u = c as u32;
    ('0' as u32 <= u && u <= '9' as u32) || ('a' as u32 <= u && u <= 'f' as u32) || ('A' as u32 <= u
        && u <= 'F' as u32)
}

/// The value of the digit string `v[from..to]` in the given base, or `None`
/// when the range is empty, holds a character that is no digit of the base,
/// or the value does not fit in `u32`.
fn parse_u32_radix(v: &Vec<char>, from: usize, to: usize, hex: bool) -> (r: Option<u32>)
    requires
        from <= to <= v@.len(),
    ensures
        ({
            let s = v@.subrange(from as int, to as int);
            let ok = s.len() > 0 && (if hex {
                forall|i: int| 0 <= i < s.len() ==> spec_is_hex_digit(s[i])
            } else {
                spec_all_dec_digits(s)
            });
            let value = if hex {
                spec_hex_val(s)
            } else {
                spec_dec_val(s)
            };
            if ok && value <= u32::MAX {
                r == Some(value as u32)
            } else {
                r is None
            }
        }),
{
    let ghost s = v@.subrange(from as int, to as int);
    if from == to {
        return None;
    }
    let base: u64 = if hex {
        16
    } else {
        10
    };
    let mut acc: u64 = 0;
    let mut i: usize = from;
    while i < to
        invariant
            from <= i <= to <= v@.len(),
            s == v@.subrange(from as int, to as int),
            base == (if hex {
                16u64
            } else {
                10u64
            }),
            forall|j: int|
                from <= j < i ==> (if hex {
                    spec_is_hex_digit(v@[j])
                } else {
                    spec_is_dec_digit(v@[j])
                }),
            acc <= 0x1_0000_0000u64 * 16,
            ({
                let value = if hex {
                    spec_hex_val(s.take(i - from))
                } else {
                    spec_dec_val(s.take(i - from))
                };
                if value <= u32::MAX {
                    acc == value
                } else {
                    acc > u32::MAX
                }
            }),
        decreases to - i,
    {
        let c = v[i];
        let d: u64 = if hex {
            if !is_hex_digit(c) {
                proof {
                    assert(s[i - from] == v@[i as int]);
                }
                return None;
            }
            let u = c as u32;
            if '0' as u32 <= u && u <= '9' as u32 {
                (u - '0' as u32) as u64
            } else if 'a' as u32 <= u && u <= 'f' as u32 {
                (u - 'a' as u32 + 10) as u64
            } else {
                (u - 'A' as u32 + 10) as u64
            }
        } else {
            if !is_dec_digit(c) {
                proof {
                    assert(s[i - from] == v@[i as int]);
                }
                return None;
            }
            (c as u32 - '0' as u32) as u64
        };
        let ghost old_val = if hex {
            spec_hex_val(s.take(i - from))
        } else {
            spec_dec_val(s.take(i - from))
        };
        let ghost new_val = if hex {
            spec_hex_val(s.take(i + 1 - from))
        } else {
            spec_dec_val(s.take(i + 1 - from))
        };
        proof {
            assert(s.take(i + 1 - from).drop_last() =~= s.take(i - from));
            assert(s.take(i + 1 - from).last() == v@[i as int]);
            assert(new_val == old_val * (base as int) + (d as int));
            lemma_base_val_nonneg_grows(s.take(i + 1 - from), if hex {
                16
            } else {
                10
            });
            if old_val > u32::MAX {
                assert(old_val * (base as int) >= old_val) by (nonlinear_arith)
                    requires
                        old_val >= 0,
                        base == 10 || base == 16,
                ;
            }
        }
        if acc <= 0xffff_ffffu64 {
            acc = acc * base + d;
        } else {
            proof {
                assert(new_val > u32::MAX);
            }
        }
        i = i + 1;
    }
    proof {
        assert(s.take(to - from) =~= s);
    }
    if acc <= 0xffff_ffffu64 {
        Some(acc as u32)
    } else {
        None
    }
}

/// The value of the decimal digit string `v[from..to]`, or `None` on an
/// empty range, a character that is no digit, or overflow.
pub fn parse_u32_dec_range(v: &Vec<char>, from: usize, to: usize) -> (r: Option<u32>)
    requires
        from <= to <= v@.len(),
    ensures
        ({
            let s = v@.subrange(from as int, to as int);
            if s.len() > 0 && spec_all_dec_digits(s) && spec_dec_val(s) <= u32::MAX {
                r == Some(spec_dec_val(s) as u32)
            } else {
                r is None
            }
        }),
{
    parse_u32_radix(v, from, to, false)
}

/// The value of the hexadecimal digit string `v[from..to]`, or `None` on an
/// empty range, a character that is no digit, or overflow.
pub fn parse_u32_hex_range(v: &Vec<char>, from: usize, to: usize) -> (r: Option<u32>)
    requires
        from <= to <= v@.len(),
    ensures
        ({
            let s = v@.subrange(from as int, to as int);
            if s.len() > 0 && (forall|i: int| 0 <= i < s.len() ==> spec_is_hex_digit(s[i]))
                && spec_hex_val(s) <= u32::MAX {
                r == Some(spec_hex_val(s) as u32)
            } else {
                r is None
            }
        }),
{
    parse_u32_radix(v, from, to, true)
}

/// What `str::parse::<i32>` returns on `s`: an optional single sign, then at
/// least one decimal digit and nothing else, within the bounds of `i32`.
pub open spec fn spec_parse_i32(s: Seq<char>) -> Option<i32> {
    if s.len() > 0 && (s[0] == '+' || s[0] == '-') {
        spec_parse_i32_digits(s.drop_first(), s[0] == '-')
    } else {
        spec_parse_i32_digits(s, false)
    }
}

/// The digit part of `spec_parse_i32`.
pub open spec fn spec_parse_i32_digits(ds: Seq<char>, neg: bool) -> Option<i32> {
    if ds.len() == 0 || !spec_all_dec_digits(ds) {
        None
    } else {
        let v = if neg {
            -spec_dec_val(ds)
        } else {
            spec_dec_val(ds)
        };
        if i32::MIN <= v <= i32::MAX {
            Some(v as i32)
        } else {
            None
        }
    }
}

/// Parses `v` as `str::parse::<i32>` does.
pub fn parse_i32_chars(v: &Vec<char>) -> (r: Option<i32>)
    ensures
        r == spec_parse_i32(v@),
{
    let (neg, from): (bool, usize) = if v.len() > 0 && (v[0] == '+' || v[0] == '-') {
        (v[0] == '-', 1)
    } else {
        (false, 0)
    };
    let ghost ds = if from == 1 {
        v@.drop_first()
    } else {
        v@
    };
    proof {
        if from == 1 {
            assert(ds =~= v@.subrange(1, v@.len() as int));
        } else {
            assert(ds =~= v@.subrange(0, v@.len() as int));
        }
    }
    if from == v.len() {
        return None;
    }
    let mut acc: u64 = 0;
    let mut i: usize = from;
    while i < v.len()
        invariant
            from <= i <= v@.len(),
            from == 0 || from == 1,
            ds == v@.subrange(from as int, v@.len() as int),
            spec_parse_i32(v@) == spec_parse_i32_digits(ds, neg),
            forall|j: int| from <= j < i ==> spec_is_dec_digit(v@[j]),
            acc <= 0x8000_0000u64 * 10 + 9,
            ({
                let value = spec_dec_val(ds.take(i - from));
                if value <= 0x8000_0000 {
                    acc == value
                } else {
                    acc > 0x8000_0000
                }
            }),
        decreases v@.len() - i,
    {
        let c = v[i];
        if !is_dec_digit(c) {
            proof {
                assert(ds[i - from] == v@[i as int]);
                assert(!spec_is_dec_digit(ds[i - from]));
                assert(!spec_all_dec_digits(ds));
                assert(spec_parse_i32(v@) == spec_parse_i32_digits(ds, neg));
                assert(spec_parse_i32_digits(ds, neg) is None);
            }
            return None;
        }
        let d: u64 = (c as u32 - '0' as u32) as u64;
        let ghost old_val = spec_dec_val(ds.take(i - from));
        let ghost new_val = spec_dec_val(ds.take(i + 1 - from));
        proof {
            assert(ds.take(i + 1 - from).drop_last() =~= ds.take(i - from));
            assert(ds.take(i + 1 - from).last() == v@[i as int]);
            assert(new_val == old_val * 10 + (d as int));
            lemma_base_val_nonneg_grows(ds.take(i + 1 - from), 10);
            if old_val > 0x8000_0000 {
                assert(old_val * 10 >= old_val) by (nonlinear_arith)
                    requires
                        old_val >= 0,
                ;
            }
        }
        if acc <= 0x8000_0000u64 {
            acc = acc * 10 + d;
        }
        i = i + 1;
    }
    proof {
        assert(ds.take(v@.len() - from) =~= ds);
    }
    if neg {
        if acc <= 0x8000_0000u64 {
            Some((-(acc as i64)) as i32)
        } else {
            None
        }
    } else {
        if acc <= 0x7fff_ffffu64 {
            Some(acc as i32)
        } else {
            None
        }
    }
}

/// `s` from position `i` on with every occurrence of `pat` removed, the
/// occurrences found left to right without overlap, as `str::replace` with
/// an empty replacement finds them.
pub open spec fn spec_remove_from(s: Seq<char>, pat: Seq<char>, i: int) -> Seq<char>
    decreases s.len() - i,
{
    if i < 0 || i >= s.len() {
        Seq::empty()
    } else if pat.len() > 0 && i + pat.len() <= s.len() && s.subrange(i, i + pat.len()) == pat {
        spec_remove_from(s, pat, i + pat.len())
    } else {
        seq![s[i]] + spec_remove_from(s, pat, i + 1)
    }
}

/// `s` with every occurrence of `pat` removed.
pub open spec fn spec_remove_all(s: Seq<char>, pat: Seq<char>) -> Seq<char> {
    spec_remove_from(s, pat, 0)
}

/// Whether `pat` stands in `v` at position `i`.
fn pattern_at(v: &Vec<char>, i: usize, pat: &Vec<char>) -> (r: bool)
    requires
        i <= v@.len(),
    ensures
        r == (i + pat@.len() <= v@.len() && v@.subrange(i as int, i + pat@.len()) == pat@),
{
    if pat.len() > v.len() - i {
        return false;
    }
    let n = v.len();
    let mut k: usize = 0;
    while k < pat.len()
        invariant
            k <= pat@.len(),
            n == v@.len(),
            i + pat@.len() <= n,
            forall|j: int| 0 <= j < k ==> v@[i + j] == pat@[j],
        decreases pat@.len() - k,
    {
        if v[i + k] != pat[k] {
            assert(v@.subrange(i as int, i + pat@.len())[k as int] != pat@[k as int]);
            return false;
        }
        k = k + 1;
    }
    assert(v@.subrange(i as int, i + pat@.len()) =~= pat@);
    true
}

/// A copy of `v` with every occurrence of `pat` removed.
pub fn remove_all(v: &Vec<char>, pat: &Vec<char>) -> (r: Vec<char>)
    ensures
        r@ == spec_remove_all(v@, pat@),
{
    let mut r: Vec<char> = Vec::new();
    let mut i: usize = 0;
    while i < v.len()
        invariant
            i <= v@.len(),
            spec_remove_all(v@, pat@) == r@ + spec_remove_from(v@, pat@, i as int),
        decreases v@.len() - i,
    {
        if pat.len() > 0 && pattern_at(v, i, pat) {
            i = i + pat.len();
        } else {
            let ghost prev = r@;
            r.push(v[i]);
            proof {
                assert(r@ =~= prev.push(v@[i as int]));
                assert(prev + (seq![v@[i as int]] + spec_remove_from(v@, pat@, i + 1)) =~= prev.push(
                    v@[i as int],
                ) + spec_remove_from(v@, pat@, i + 1));
            }
            i = i + 1;
        }
    }
    proof {
        assert(spec_remove_from(v@, pat@, i as int) =~= Seq::<char>::empty());
        assert(r@ + Seq::<char>::empty() =~= r@);
    }
    r
}


/// What the Unicode tables say `char::is_uppercase` returns; the result
/// depends on the character alone.
pub uninterp spec fn uppercase_of(c: char) -> bool;

/// Relies on `char::is_uppercase`: whether the character counts as
/// uppercase by the Unicode tables compiled into the standard library.
#[verifier::external_body]
pub(crate) fn char_is_uppercase(c: char) -> (r: bool)
    ensures
        r == uppercase_of(c),
{
    c.is_uppercase()
}

} // verus!
