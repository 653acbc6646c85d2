//! Text as sequences of characters: splitting, trimming and decimal numbers.

use vstd::prelude::*;

verus! {

/// `String::push` appends one character to a string.
pub assume_specification[ String::push ](s: &mut String, c: char)
    ensures
        final(s)@ == old(s)@.push(c),
;

/// The characters of `s`.
pub fn chars_of(s: &str) -> (out: Vec<char>)
    ensures
        out@ == s@,
{
    let mut out: Vec<char> = Vec::new();
    let n: usize = s.unicode_len();
    let mut i: usize = 0;
    while i < n
        invariant
            n == s@.len(),
            i <= n,
            out@ == s@.take(i as int),
        decreases n - i,
    {
        out.push(s.get_char(i));
        i = i + 1;
        assert(out@ =~= s@.take(i as int));
    }
    assert(out@ =~= s@);
    out
}

/// The string of the characters `cs`.
pub fn string_of(cs: &Vec<char>) -> (out: String)
    ensures
        out@ == cs@,
{
    let mut out: String = String::new();
    let mut i: usize = 0;
    while i < cs.len()
        invariant
            i <= cs@.len(),
            out@ == cs@.take(i as int),
        decreases cs@.len() - i,
    {
        out.push(cs[i]);
        i = i + 1;
        assert(out@ =~= cs@.take(i as int));
    }
    assert(out@ =~= cs@);
    out
}

/// The characters with the Unicode property White_Space.
pub open spec fn is_white(c: char) -> bool {
    ||| 9 <= c as u32 <= 13
    ||| c as u32 == 0x20
    ||| c as u32 == 0x85
    ||| c as u32 == 0xA0
    ||| c as u32 == 0x1680
    ||| 0x2000 <= c as u32 <= 0x200A
    ||| c as u32 == 0x2028
    ||| c as u32 == 0x2029
    ||| c as u32 == 0x202F
    ||| c as u32 == 0x205F
    ||| c as u32 == 0x3000
}

/// Whether `c` is white space.
pub fn white(c: char) -> (w: bool)
    ensures
        w == is_white(c),
{
    let n: u32 = c as u32;
    (9 <= n && n <= 13) || n == 0x20 || n == 0x85 || n == 0xA0 || n == 0x1680 || (0x2000 <= n && n
        <= 0x200A) || n == 0x2028 || n == 0x2029 || n == 0x202F || n == 0x205F || n == 0x3000
}

/// `s` without leading and trailing white space.
pub open spec fn trimmed(s: Seq<char>) -> Seq<char>
    decreases s.len(),
{
    if s.len() > 0 && is_white(s[0]) {
        trimmed(s.skip(1))
    } else if s.len() > 0 && is_white(s.last()) {
        trimmed(s.drop_last())
    } else {
        s
    }
}

/// The part of `s` without leading and trailing white space.
pub fn trim(s: &Vec<char>) -> (out: Vec<char>)
    ensures
        out@ == trimmed(s@),
{
    let mut start: usize = 0;
    let mut end: usize = s.len();
    assert(s@.subrange(0, end as int) =~= s@);
    while start < end && white(s[start])
        invariant
            start <= end,
            end == s@.len(),
            trimmed(s@) == trimmed(s@.subrange(start as int, end as int)),
        decreases end - start,
    {
        assert(s@.subrange(start as int, end as int).skip(1) =~= s@.subrange(
            start + 1,
            end as int,
        ));
        start = start + 1;
    }
    while start < end && white(s[end - 1])
        invariant
            start <= end <= s@.len(),
            start < end ==> !is_white(s@[start as int]),
            trimmed(s@) == trimmed(s@.subrange(start as int, end as int)),
        decreases end - start,
    {
        assert(s@.subrange(start as int, end as int).drop_last() =~= s@.subrange(
            start as int,
            end - 1,
        ));
        end = end - 1;
    }
    let out: Vec<char> = slice_of(s, start, end);
    assert(trimmed(out@) == out@);
    out
}

/// The characters of `s` from `start` up to `end`.
pub fn slice_of(s: &Vec<char>, start: usize, end: usize) -> (out: Vec<char>)
    requires
        start <= end <= s@.len(),
    ensures
        out@ == s@.subrange(start as int, end as int),
{
    let mut out: Vec<char> = Vec::new();
    let mut i: usize = start;
    while i < end
        invariant
            start <= i <= end <= s@.len(),
            out@ == s@.subrange(start as int, i as int),
        decreases end - i,
    {
        out.push(s[i]);
        i = i + 1;
        assert(out@ =~= s@.subrange(start as int, i as int));
    }
    out
}

/// The parts of `s` between separators: one more than there are separators.
pub open spec fn split(s: Seq<char>, sep: char) -> Seq<Seq<char>>
    decreases s.len(),
{
    if s.len() == 0 {
        seq![Seq::<char>::empty()]
    } else {
        let before = split(s.drop_last(), sep);
        if s.last() == sep {
            before.push(Seq::empty())
        } else {
            before.update(before.len() - 1, before.last().push(s.last()))
        }
    }
}

/// A split is never empty.
pub proof fn split_nonempty(s: Seq<char>, sep: char)
    ensures
        split(s, sep).len() > 0,
    decreases s.len(),
{
    if s.len() > 0 {
        split_nonempty(s.drop_last(), sep);
    }
}

/// Words as sequences.
pub open spec fn words_view(words: Seq<Vec<char>>) -> Seq<Seq<char>> {
    Seq::new(words.len(), |i: int| words[i]@)
}

/// Splits `s` at every `sep`.
pub fn split_at(s: &Vec<char>, sep: char) -> (parts: Vec<Vec<char>>)
    ensures
        words_view(parts@) == split(s@, sep),
        parts@.len() > 0,
{
    let mut parts: Vec<Vec<char>> = Vec::new();
    let mut part: Vec<char> = Vec::new();
    let mut i: usize = 0;
    assert(words_view(parts@).push(part@) =~= split(s@.take(0), sep));
    while i < s.len()
        invariant
            i <= s@.len(),
            words_view(parts@).push(part@) == split(s@.take(i as int), sep),
        decreases s@.len() - i,
    {
        let c: char = s[i];
        let ghost before = words_view(parts@).push(part@);
        assert(s@.take(i + 1).drop_last() =~= s@.take(i as int));
        assert(s@.take(i + 1).last() == c);
        if c == sep {
            let ghost last = part@;
            parts.push(part);
            part = Vec::new();
            assert(words_view(parts@) =~= before);
            assert(words_view(parts@).push(part@) =~= before.push(Seq::empty()));
        } else {
            part.push(c);
            assert(words_view(parts@).push(part@) =~= before.update(
                before.len() - 1,
                before.last().push(c),
            ));
        }
        i = i + 1;
    }
    assert(s@.take(i as int) =~= s@);
    let ghost done = words_view(parts@).push(part@);
    parts.push(part);
    assert(words_view(parts@) =~= done);
    parts
}

/// A part that holds something.
pub open spec fn nonempty() -> spec_fn(Seq<char>) -> bool {
    |w: Seq<char>| w.len() > 0
}

/// The non-empty parts of `s` between separators.
pub open spec fn words(s: Seq<char>, sep: char) -> Seq<Seq<char>> {
    split(s, sep).filter(nonempty())
}

/// The non-empty parts of `s` between separators.
pub fn split_words(s: &Vec<char>, sep: char) -> (out: Vec<Vec<char>>)
    ensures
        words_view(out@) == words(s@, sep),
{
    let parts: Vec<Vec<char>> = split_at(s, sep);
    let ghost all = words_view(parts@);
    let mut out: Vec<Vec<char>> = Vec::new();
    let mut i: usize = 0;
    proof {
        reveal(Seq::filter);
        assert(words_view(out@) =~= all.take(0).filter(nonempty()));
    }
    while i < parts.len()
        invariant
            i <= parts@.len(),
            all == words_view(parts@),
            words_view(out@) == all.take(i as int).filter(nonempty()),
        decreases parts@.len() - i,
    {
        let ghost before = words_view(out@);
        proof {
            reveal(Seq::filter);
            assert(all.take(i + 1).drop_last() =~= all.take(i as int));
            assert(all.take(i + 1).last() == parts@[i as int]@);
        }
        if parts[i].len() > 0 {
            let w: Vec<char> = copy_of(&parts[i]);
            let ghost view = w@;
            out.push(w);
            assert(words_view(out@) =~= before.push(view));
        }
        i = i + 1;
    }
    assert(all.take(i as int) =~= all);
    out
}

/// A copy of `s`.
pub fn copy_of(s: &Vec<char>) -> (out: Vec<char>)
    ensures
        out@ == s@,
{
    let out: Vec<char> = slice_of(s, 0, s.len());
    assert(out@ =~= s@);
    out
}

/// Whether two character vectors hold the same characters.
pub fn same_chars(a: &Vec<char>, b: &Vec<char>) -> (same: bool)
    ensures
        same == (a@ == b@),
{
    if a.len() != b.len() {
        return false;
    }
    let mut i: usize = 0;
    while i < a.len()
        invariant
            i <= a@.len(),
            a@.len() == b@.len(),
            forall|j: int| 0 <= j < i ==> a@[j] == b@[j],
        decreases a@.len() - i,
    {
        if a[i] != b[i] {
            return false;
        }
        i = i + 1;
    }
    assert(a@ =~= b@);
    true
}

/// A decimal digit.
pub open spec fn is_digit(c: char) -> bool {
    48 <= c as u32 <= 57
}

/// The number that the digits `s` spell.
pub open spec fn decimal(s: Seq<char>) -> nat
    decreases s.len(),
{
    if s.len() == 0 {
        0
    } else {
        decimal(s.drop_last()) * 10 + (s.last() as u32 - 48) as nat
    }
}

/// The digits behind an optional plus sign.
pub open spec fn unsigned_digits(s: Seq<char>) -> Seq<char> {
    if s.len() > 0 && s[0] == '+' {
        s.skip(1)
    } else {
        s
    }
}

/// The number no greater than `max` that `s` spells: digits, at least one, behind an optional
/// plus sign.
pub open spec fn parsed(s: Seq<char>, max: nat) -> Option<nat> {
    let digits = unsigned_digits(s);
    if digits.len() == 0 || (exists|i: int| 0 <= i < digits.len() && !is_digit(
        #[trigger] digits[i],
    )) || decimal(digits) > max {
        None
    } else {
        Some(decimal(digits))
    }
}

/// Parses a number no greater than `max`.
pub fn parse_number(s: &Vec<char>, max: u32) -> (n: Option<u32>)
    requires
        max <= 0x0FFF_FFFF,
    ensures
        match n {
            Some(x) => parsed(s@, max as nat) == Some(x as nat),
            None => parsed(s@, max as nat) is None,
        },
{
    let start: usize = if s.len() > 0 && s[0] == '+' {
        1
    } else {
        0
    };
    let ghost digits = unsigned_digits(s@);
    assert(digits =~= s@.subrange(start as int, s@.len() as int));
    if s.len() == start {
        return None;
    }
    let mut value: u32 = 0;
    let mut too_large: bool = false;
    let mut i: usize = start;
    assert(digits.take(0) =~= Seq::empty());
    while i < s.len()
        invariant
            max <= 0x0FFF_FFFF,
            start <= i <= s@.len(),
            digits == s@.subrange(start as int, s@.len() as int),
            digits == unsigned_digits(s@),
            digits.len() > 0,
            forall|j: int| 0 <= j < i - start ==> is_digit(#[trigger] digits[j]),
            !too_large ==> value <= max && value == decimal(digits.take(i - start)),
            too_large ==> decimal(digits.take(i - start)) > max,
        decreases s@.len() - i,
    {
        let code: u32 = s[i] as u32;
        assert(digits[i - start] == s@[i as int]);
        if code < 48 || code > 57 {
            assert(!is_digit(digits[i - start]));
            return None;
        }
        assert(digits.take(i - start + 1).drop_last() =~= digits.take(i - start));
        assert(digits.take(i - start + 1).last() == digits[i - start]);
        if !too_large {
            value = value * 10 + (code - 48);
            if value > max {
                too_large = true;
            }
        }
        i = i + 1;
    }
    assert(digits.take(i - start) =~= digits);
    if too_large {
        None
    } else {
        Some(value)
    }
}

/// Appends characters.
pub fn append_chars(out: &mut Vec<char>, more: &Vec<char>)
    ensures
        final(out)@ == old(out)@ + more@,
{
    let ghost before = out@;
    let mut i: usize = 0;
    assert(before + more@.take(0) =~= before);
    while i < more.len()
        invariant
            i <= more@.len(),
            out@ == before + more@.take(i as int),
        decreases more@.len() - i,
    {
        out.push(more[i]);
        i = i + 1;
        assert(out@ =~= before + more@.take(i as int));
    }
    assert(more@.take(i as int) =~= more@);
}

/// Appends a string.
pub fn append_str(out: &mut Vec<char>, more: &str)
    ensures
        final(out)@ == old(out)@ + more@,
{
    let cs: Vec<char> = chars_of(more);
    append_chars(out, &cs);
}

/// The digit with this value, in lower case.
pub open spec fn digit(n: nat) -> char {
    if n == 0 {
        '0'
    } else if n == 1 {
        '1'
    } else if n == 2 {
        '2'
    } else if n == 3 {
        '3'
    } else if n == 4 {
        '4'
    } else if n == 5 {
        '5'
    } else if n == 6 {
        '6'
    } else if n == 7 {
        '7'
    } else if n == 8 {
        '8'
    } else if n == 9 {
        '9'
    } else if n == 10 {
        'a'
    } else if n == 11 {
        'b'
    } else if n == 12 {
        'c'
    } else if n == 13 {
        'd'
    } else if n == 14 {
        'e'
    } else {
        'f'
    }
}

/// The digit with this value.
fn digit_char(n: u64) -> (c: char)
    ensures
        c == digit(n as nat),
{
    match n {
        0 => '0',
        1 => '1',
        2 => '2',
        3 => '3',
        4 => '4',
        5 => '5',
        6 => '6',
        7 => '7',
        8 => '8',
        9 => '9',
        10 => 'a',
        11 => 'b',
        12 => 'c',
        13 => 'd',
        14 => 'e',
        _ => 'f',
    }
}

/// The digits of `n` in this base, without leading zeros.
pub open spec fn numeral(n: nat, base: nat) -> Seq<char>
    recommends
        base >= 2,
    decreases n,
{
    if n < base || base < 2 {
        seq![digit(n)]
    } else {
        proof {
            assert(n / base < n) by (nonlinear_arith)
                requires
                    n >= base,
                    base >= 2,
            ;
        }
        numeral(n / base, base).push(digit(n % base))
    }
}

/// The digits of `n` in base 10 or 16.
pub fn numeral_of(n: u64, base: u64) -> (out: Vec<char>)
    requires
        2 <= base <= 16,
    ensures
        out@ == numeral(n as nat, base as nat),
    decreases n,
{
    if n < base {
        let mut out: Vec<char> = Vec::new();
        out.push(digit_char(n));
        assert(out@ =~= numeral(n as nat, base as nat));
        out
    } else {
        assert(n / base < n) by (nonlinear_arith)
            requires
                n >= base,
                base >= 2,
        ;
        let mut out: Vec<char> = numeral_of(n / base, base);
        out.push(digit_char(n % base));
        out
    }
}

/// The decimal digits of a number spell it.
pub proof fn numeral_spells_the_number(n: nat)
    ensures
        decimal(numeral(n, 10)) == n,
        numeral(n, 10).len() > 0,
        forall|i: int| 0 <= i < numeral(n, 10).len() ==> is_digit(#[trigger] numeral(n, 10)[i]),
    decreases n,
{
    reveal_with_fuel(decimal, 2);
    if n < 10 {
        assert(numeral(n, 10).drop_last() =~= Seq::empty());
    } else {
        numeral_spells_the_number(n / 10);
        assert(numeral(n, 10).drop_last() =~= numeral(n / 10, 10));
    }
}

/// How many characters come before the first white space from `k` on.
pub open spec fn word_end(s: Seq<char>, k: int) -> int
    decreases s.len() - k,
{
    if k >= s.len() || is_white(s[k]) {
        k
    } else {
        word_end(s, k + 1)
    }
}

/// The first part of `s` up to white space, and what follows that one character; `None` if there
/// is no white space.
pub open spec fn first_word(s: Seq<char>) -> (Seq<char>, Option<Seq<char>>) {
    let n = word_end(s, 0);
    if 0 <= n < s.len() {
        (s.take(n), Some(s.skip(n + 1)))
    } else {
        (s, None)
    }
}

/// Optional characters, as a sequence.
pub open spec fn opt_view(s: Option<Vec<char>>) -> Option<Seq<char>> {
    match s {
        Some(cs) => Some(cs@),
        None => None,
    }
}

/// Splits off the first part of `s`.
pub fn split_first(s: &Vec<char>) -> (r: (Vec<char>, Option<Vec<char>>))
    ensures
        (r.0@, opt_view(r.1)) == first_word(s@),
{
    let mut n: usize = 0;
    while n < s.len() && !white(s[n])
        invariant
            n <= s@.len(),
            word_end(s@, 0) == word_end(s@, n as int),
        decreases s@.len() - n,
    {
        n = n + 1;
    }
    if n < s.len() {
        let head: Vec<char> = slice_of(s, 0, n);
        let rest: Vec<char> = slice_of(s, n + 1, s.len());
        assert(head@ =~= s@.take(n as int));
        assert(rest@ =~= s@.skip(n + 1));
        (head, Some(rest))
    } else {
        (copy_of(s), None)
    }
}

/// `std::str::from_utf8` takes bytes for text if they are well-formed UTF-8, and else fails.
#[verifier::external_body]
pub(crate) fn from_utf8(data: &[u8]) -> (text: Option<String>)
    ensures
        match text {
            Some(s) => vstd::utf8::valid_utf8(data@) && s@ == vstd::utf8::decode_utf8(data@),
            None => !vstd::utf8::valid_utf8(data@),
        },
{
    std::str::from_utf8(data).ok().map(String::from)
}

/// The parts of two texts joined by a separator are those of the first, then those of the second.
pub proof fn separator_divides(a: Seq<char>, b: Seq<char>, sep: char)
    ensures
        split(a + seq![sep] + b, sep) == split(a, sep) + split(b, sep),
        words(a + seq![sep] + b, sep) == words(a, sep) + words(b, sep),
    decreases b.len(),
{
    let s = a + seq![sep] + b;
    split_nonempty(a, sep);
    split_nonempty(b, sep);
    if b.len() == 0 {
        assert(s.drop_last() =~= a);
        assert(split(s, sep) =~= split(a, sep) + split(b, sep));
    } else {
        separator_divides(a, b.drop_last(), sep);
        split_nonempty(b.drop_last(), sep);
        assert(s.drop_last() =~= a + seq![sep] + b.drop_last());
        assert(split(s, sep) =~= split(a, sep) + split(b, sep));
    }
    Seq::filter_distributes_over_add(split(a, sep), split(b, sep), nonempty());
}

/// A text without separators is one part, and one word unless it is empty.
pub proof fn plain_text_is_one_part(s: Seq<char>, sep: char)
    requires
        !s.contains(sep),
    ensures
        split(s, sep) == seq![s],
        s.len() > 0 ==> words(s, sep) == seq![s],
        s.len() == 0 ==> words(s, sep) == Seq::<Seq<char>>::empty(),
    decreases s.len(),
{
    if s.len() > 0 {
        assert(!s.drop_last().contains(sep)) by {
            if s.drop_last().contains(sep) {
                let i = choose|i: int| 0 <= i < s.drop_last().len() && s.drop_last()[i] == sep;
                assert(s[i] == sep);
            }
        }
        assert(s.last() != sep) by {
            assert(s[s.len() - 1] == s.last());
        }
        plain_text_is_one_part(s.drop_last(), sep);
        assert(s.drop_last().push(s.last()) =~= s);
        assert(split(s, sep) =~= seq![s]);
    } else {
        assert(s =~= Seq::<char>::empty());
        assert(split(s, sep) =~= seq![s]);
    }
    let one = seq![s];
    reveal(Seq::filter);
    assert(one.drop_last() =~= Seq::<Seq<char>>::empty());
    assert(one.drop_last().filter(nonempty()) =~= Seq::<Seq<char>>::empty());
    assert(one.last() == s);
    if s.len() > 0 {
        assert(one.filter(nonempty()) =~= seq![s]);
    }
}

/// Trimming takes white space away at both ends and nothing else.
pub proof fn white_space_around_is_ignored(before: Seq<char>, s: Seq<char>, after: Seq<char>)
    requires
        forall|i: int| 0 <= i < before.len() ==> is_white(#[trigger] before[i]),
        forall|i: int| 0 <= i < after.len() ==> is_white(#[trigger] after[i]),
        s.len() > 0 ==> !is_white(s[0]) && !is_white(s.last()),
    ensures
        trimmed(before + s + after) == s,
    decreases before.len() + after.len(),
{
    let t = before + s + after;
    if before.len() > 0 {
        assert(t[0] == before[0]);
        assert(t.skip(1) =~= before.skip(1) + s + after);
        assert forall|i: int| 0 <= i < before.skip(1).len() implies is_white(
            #[trigger] before.skip(1)[i],
        ) by {
            assert(before.skip(1)[i] == before[i + 1]);
        }
        white_space_around_is_ignored(before.skip(1), s, after);
    } else if after.len() > 0 {
        assert(after[after.len() - 1] == t.last());
        if s.len() > 0 {
            assert(t[0] == s[0]);
            assert(t.drop_last() =~= before + s + after.drop_last());
            white_space_around_is_ignored(before, s, after.drop_last());
        } else {
            assert(t[0] == after[0]);
            assert(t.skip(1) =~= before + s + after.skip(1));
            assert forall|i: int| 0 <= i < after.skip(1).len() implies is_white(
                #[trigger] after.skip(1)[i],
            ) by {
                assert(after.skip(1)[i] == after[i + 1]);
            }
            white_space_around_is_ignored(before, s, after.skip(1));
        }
    } else {
        assert(t =~= s);
    }
}

/// The first word of a text is what stands before its first white space, and the rest follows
/// that one character.
pub proof fn first_word_ends_at_white_space(word: Seq<char>, c: char, rest: Seq<char>)
    requires
        forall|i: int| 0 <= i < word.len() ==> !is_white(#[trigger] word[i]),
        is_white(c),
    ensures
        first_word(word + seq![c] + rest) == (word, Some(rest)),
        first_word(word) == (word, None::<Seq<char>>),
{
    let s = word + seq![c] + rest;
    lemma_word_end(s, 0, word.len() as int);
    lemma_word_end(word, 0, word.len() as int);
    assert(s.take(word.len() as int) =~= word);
    assert(s.skip(word.len() as int + 1) =~= rest);
}

/// The first white space is found where it is.
proof fn lemma_word_end(s: Seq<char>, k: int, n: int)
    requires
        0 <= k <= n <= s.len(),
        forall|i: int| k <= i < n ==> !is_white(#[trigger] s[i]),
        n == s.len() || is_white(s[n]),
    ensures
        word_end(s, k) == n,
    decreases n - k,
{
    if k < n {
        lemma_word_end(s, k + 1, n);
    }
}

/// Digits behind digits: the number grows by the place.
pub proof fn digits_stand_for_places(s: Seq<char>, c: char)
    requires
        forall|i: int| 0 <= i < s.len() ==> is_digit(#[trigger] s[i]),
        48 <= c as int <= 57,
    ensures
        decimal(seq![c]) == c as int - 48,
        decimal(s.push(c)) == decimal(s) * 10 + (c as int - 48),
{
    assert(s.push(c).drop_last() =~= s);
    assert(seq![c].drop_last() =~= Seq::<char>::empty());
    reveal_with_fuel(decimal, 2);
}

} // verus!
