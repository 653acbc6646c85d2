//! 8.3 names: up to eight characters and an extension of up to three, stored upper-case and
//! padded with spaces.

use vstd::prelude::*;

use crate::text::chars_of;

verus! {

/// What pads a name.
pub const SPACE: u8 = 0x20;

/// The byte that stands for `c` in a stored name. Letters are stored upper-case; besides them
/// only digits and a few safe marks are allowed.
pub open spec fn name_byte(c: char) -> Option<u8> {
    let n = c as u32;
    if 0x61 <= n <= 0x7A {
        Some((n - 0x20) as u8)
    } else if 0x41 <= n <= 0x5A || 0x30 <= n <= 0x39 || n == 0x5F || n == 0x2D || n == 0x7E || n
        == 0x21 || (0x23 <= n <= 0x26) || n == 0x28 || n == 0x29 {
        Some(n as u8)
    } else {
        None
    }
}

/// The byte that stands for `c` in a stored name.
fn short_name_byte(c: char) -> (b: Option<u8>)
    ensures
        b == name_byte(c),
{
    let n: u32 = c as u32;
    if 0x61 <= n && n <= 0x7A {
        Some((n - 0x20) as u8)
    } else if (0x41 <= n && n <= 0x5A) || (0x30 <= n && n <= 0x39) || n == 0x5F || n == 0x2D || n
        == 0x7E || n == 0x21 || (0x23 <= n && n <= 0x26) || n == 0x28 || n == 0x29 {
        Some(n as u8)
    } else {
        None
    }
}

/// Whether every character of `s` may stand in a stored name.
pub open spec fn storable(s: Seq<char>) -> bool {
    forall|i: int| 0 <= i < s.len() ==> name_byte(#[trigger] s[i]) is Some
}

/// `s` as `n` bytes, padded with spaces.
pub open spec fn padded(s: Seq<char>, n: nat) -> Seq<u8> {
    Seq::new(
        n,
        |i: int|
            if i < s.len() {
                name_byte(s[i]).unwrap()
            } else {
                SPACE
            },
    )
}

/// The position of the last dot in `s`, or -1.
pub open spec fn last_dot(s: Seq<char>) -> int
    decreases s.len(),
{
    if s.len() == 0 {
        -1
    } else if s.last() == '.' {
        s.len() - 1
    } else {
        last_dot(s.drop_last())
    }
}

/// What stands before the last dot.
pub open spec fn base_of(name: Seq<char>) -> Seq<char> {
    if last_dot(name) < 0 {
        name
    } else {
        name.take(last_dot(name))
    }
}

/// What stands after the last dot.
pub open spec fn extension_of(name: Seq<char>) -> Seq<char> {
    if last_dot(name) < 0 {
        Seq::empty()
    } else {
        name.skip(last_dot(name) + 1)
    }
}

/// The stored form of a name, if it has one.
pub open spec fn short_name(name: Seq<char>) -> Option<Seq<u8>> {
    let base = base_of(name);
    let extension = extension_of(name);
    if 0 < base.len() <= 8 && extension.len() <= 3 && storable(base) && storable(extension) {
        Some(padded(base, 8) + padded(extension, 3))
    } else {
        None
    }
}

proof fn lemma_last_dot(s: Seq<char>)
    ensures
        -1 <= last_dot(s) < s.len(),
        last_dot(s) >= 0 ==> s[last_dot(s)] == '.',
        forall|i: int| last_dot(s) < i < s.len() ==> s[i] != '.',
    decreases s.len(),
{
    if s.len() > 0 && s.last() != '.' {
        lemma_last_dot(s.drop_last());
        let d = last_dot(s);
        assert forall|i: int| d < i < s.len() implies s[i] != '.' by {
            if i < s.len() - 1 {
                assert(s.drop_last()[i] == s[i]);
            }
        }
    }
}

proof fn lemma_last_dot_is(s: Seq<char>, d: int)
    requires
        -1 <= d < s.len(),
        d >= 0 ==> s[d] == '.',
        forall|i: int| d < i < s.len() ==> s[i] != '.',
    ensures
        last_dot(s) == d,
    decreases s.len(),
{
    if s.len() > 0 && d != s.len() - 1 {
        assert forall|i: int| d < i < s.drop_last().len() implies s.drop_last()[i] != '.' by {
            assert(s[i] != '.');
        }
        lemma_last_dot_is(s.drop_last(), d);
    }
}

/// Stores `n` characters of `name` from `from` on into `short`, from `at` on.
fn store(name: &Vec<char>, from: usize, n: usize, short: &mut Vec<u8>, at: usize) -> (ok: bool)
    requires
        from + n <= name@.len(),
        at + n <= old(short)@.len(),
    ensures
        ok == storable(name@.subrange(from as int, from + n)),
        final(short)@.len() == old(short)@.len(),
        ok ==> forall|i: int|
            0 <= i < old(short)@.len() ==> (#[trigger] final(short)@[i]) == if at <= i < at + n {
                name_byte(name@[from + i - at]).unwrap()
            } else {
                old(short)@[i]
            },
{
    let ghost part = name@.subrange(from as int, from + n);
    let ghost before = short@;
    let mut i: usize = 0;
    while i < n
        invariant
            i <= n,
            from + n <= name@.len(),
            at + n <= before.len(),
            before == old(short)@,
            short@.len() == before.len(),
            part == name@.subrange(from as int, from + n),
            forall|j: int| 0 <= j < i ==> name_byte(#[trigger] part[j]) is Some,
            forall|j: int|
                0 <= j < before.len() ==> (#[trigger] short@[j]) == if at <= j < at + i {
                    name_byte(name@[from + j - at]).unwrap()
                } else {
                    before[j]
                },
        decreases n - i,
    {
        assert(part[i as int] == name@[from + i]);
        assert(from + i < name.len() && at + i < short.len());
        match short_name_byte(name[from + i]) {
            Some(b) => {
                short.set(at + i, b);
            },
            None => {
                return false;
            },
        }
        i = i + 1;
    }
    true
}

/// The stored form of a name, if it has one.
pub fn string_to_short_name(name: &str) -> (short: Option<Vec<u8>>)
    ensures
        match short {
            Some(s) => short_name(name@) == Some(s@) && s@.len() == 11,
            None => short_name(name@) is None,
        },
{
    let chars: Vec<char> = chars_of(name);
    let mut dot: usize = chars.len();
    let mut found: bool = false;
    proof {
        lemma_last_dot(chars@);
    }
    while dot > 0 && !found
        invariant
            dot <= chars@.len(),
            !found ==> forall|j: int| dot <= j < chars@.len() ==> chars@[j] != '.',
            found ==> dot < chars@.len() && chars@[dot as int] == '.' && forall|j: int|
                dot < j < chars@.len() ==> chars@[j] != '.',
        decreases dot,
    {
        if chars[dot - 1] == '.' {
            found = true;
            dot = dot - 1;
        } else {
            dot = dot - 1;
        }
    }
    proof {
        if found {
            lemma_last_dot_is(chars@, dot as int);
        } else {
            lemma_last_dot_is(chars@, -1);
        }
    }
    let n: usize = chars.len();
    let base_len: usize = if found {
        dot
    } else {
        n
    };
    let ext_start: usize = if found {
        dot + 1
    } else {
        n
    };
    let ext_len: usize = n - ext_start;
    let ghost base = base_of(chars@);
    let ghost extension = extension_of(chars@);
    assert(base =~= chars@.subrange(0, base_len as int));
    assert(extension =~= chars@.subrange(ext_start as int, ext_start + ext_len));
    if base_len == 0 || base_len > 8 || ext_len > 3 {
        return None;
    }
    let mut short: Vec<u8> = Vec::new();
    let mut i: usize = 0;
    while i < 11
        invariant
            i <= 11,
            short@.len() == i,
            forall|j: int| 0 <= j < i ==> short@[j] == SPACE,
        decreases 11 - i,
    {
        short.push(SPACE);
        i = i + 1;
    }
    if !store(&chars, 0, base_len, &mut short, 0) {
        return None;
    }
    if !store(&chars, ext_start, ext_len, &mut short, 8) {
        return None;
    }
    assert(short@ =~= padded(base, 8) + padded(extension, 3));
    Some(short)
}

/// `field` without the spaces at its end.
pub open spec fn unpadded(field: Seq<u8>) -> Seq<u8>
    decreases field.len(),
{
    if field.len() > 0 && field.last() == SPACE {
        unpadded(field.drop_last())
    } else {
        field
    }
}

/// Bytes as the characters with their numbers.
pub open spec fn as_chars(s: Seq<u8>) -> Seq<char> {
    Seq::new(s.len(), |i: int| s[i] as char)
}

/// A stored name as it is shown: the base, then a dot and the extension if there is one.
pub open spec fn shown_name(raw: Seq<u8>) -> Seq<char> {
    let base = as_chars(unpadded(raw.subrange(0, 8)));
    let extension = as_chars(unpadded(raw.subrange(8, 11)));
    if extension.len() == 0 {
        base
    } else {
        base + seq!['.'] + extension
    }
}

/// How long the field from `from` to `to` is without the spaces at its end.
fn unpadded_len(raw: &[u8], from: usize, to: usize) -> (n: usize)
    requires
        from <= to <= raw@.len(),
    ensures
        n <= to - from,
        unpadded(raw@.subrange(from as int, to as int)) == raw@.subrange(from as int, from + n),
{
    let ghost field = raw@.subrange(from as int, to as int);
    let mut n: usize = to - from;
    assert(raw@.subrange(from as int, from + n) =~= field);
    while n > 0 && raw[from + n - 1] == SPACE
        invariant
            n <= to - from,
            from <= to <= raw@.len(),
            unpadded(field) == unpadded(raw@.subrange(from as int, from + n)),
        decreases n,
    {
        assert(raw@.subrange(from as int, from + n).drop_last() =~= raw@.subrange(
            from as int,
            from + n - 1,
        ));
        n = n - 1;
    }
    n
}

/// Appends bytes as characters.
fn push_chars(out: &mut Vec<char>, raw: &[u8], from: usize, n: usize)
    requires
        from + n <= raw@.len(),
    ensures
        final(out)@ == old(out)@ + as_chars(raw@.subrange(from as int, from + n)),
{
    let ghost before = out@;
    let ghost part = as_chars(raw@.subrange(from as int, from + n));
    let mut i: usize = 0;
    while i < n
        invariant
            i <= n,
            from + n <= raw@.len(),
            part == as_chars(raw@.subrange(from as int, from + n)),
            out@ =~= before + part.take(i as int),
        decreases n - i,
    {
        assert(from + i < raw.len());
        out.push(raw[from + i] as char);
        i = i + 1;
    }
    assert(part.take(n as int) =~= part);
}

/// A stored name as it is shown.
pub fn short_name_to_string(raw: &[u8]) -> (name: Vec<char>)
    requires
        raw@.len() >= 11,
    ensures
        name@ == shown_name(raw@),
{
    let base_len: usize = unpadded_len(raw, 0, 8);
    let ext_len: usize = unpadded_len(raw, 8, 11);
    let mut name: Vec<char> = Vec::new();
    push_chars(&mut name, raw, 0, base_len);
    assert(name@ =~= as_chars(unpadded(raw@.subrange(0, 8))));
    if ext_len > 0 {
        name.push('.');
        push_chars(&mut name, raw, 8, ext_len);
        assert(name@ =~= shown_name(raw@));
    }
    name
}

/// A character with the case of ASCII letters taken away.
pub open spec fn folded(c: char) -> u32 {
    if 0x41 <= c as u32 <= 0x5A {
        (c as u32 + 0x20) as u32
    } else {
        c as u32
    }
}

/// Whether two names are the same but for the case of ASCII letters.
pub open spec fn same_name(a: Seq<char>, b: Seq<char>) -> bool {
    a.len() == b.len() && forall|i: int| 0 <= i < a.len() ==> folded(#[trigger] a[i]) == folded(b[i])
}

fn fold(c: char) -> (n: u32)
    ensures
        n == folded(c),
{
    let n: u32 = c as u32;
    if 0x41 <= n && n <= 0x5A {
        n + 0x20
    } else {
        n
    }
}

/// Whether two names are the same but for the case of ASCII letters.
pub fn eq_ignore_case(a: &Vec<char>, b: &Vec<char>) -> (same: bool)
    ensures
        same == same_name(a@, b@),
{
    if a.len() != b.len() {
        return false;
    }
    let mut i: usize = 0;
    while i < a.len()
        invariant
            i <= a@.len(),
            a@.len() == b@.len(),
            forall|j: int| 0 <= j < i ==> folded(#[trigger] a@[j]) == folded(b@[j]),
        decreases a@.len() - i,
    {
        if fold(a[i]) != fold(b[i]) {
            assert(folded(a@[i as int]) != folded(b@[i as int]));
            return false;
        }
        i = i + 1;
    }
    true
}

/// Whether `b` is a byte that a stored name holds.
pub open spec fn stored_byte(b: u8) -> bool {
    name_byte(b as char) == Some(b)
}

/// A field with `n` bytes of a name and spaces after them.
pub open spec fn field_of(field: Seq<u8>, n: int) -> bool {
    &&& 0 <= n <= field.len()
    &&& forall|i: int| 0 <= i < n ==> stored_byte(#[trigger] field[i])
    &&& forall|i: int| n <= i < field.len() ==> field[i] == SPACE
}

/// Whether `raw` is a name in its stored form.
pub open spec fn is_short_name(raw: Seq<u8>) -> bool {
    &&& raw.len() == 11
    &&& exists|n: int| n > 0 && field_of(raw.subrange(0, 8), n)
    &&& exists|n: int| field_of(raw.subrange(8, 11), n)
}

proof fn lemma_unpadded(field: Seq<u8>, n: int)
    requires
        field_of(field, n),
    ensures
        unpadded(field) == field.take(n),
    decreases field.len() - n,
{
    if n < field.len() {
        let shorter = field.drop_last();
        assert forall|i: int| 0 <= i < n implies stored_byte(#[trigger] shorter[i]) by {
            assert(shorter[i] == field[i]);
        }
        lemma_unpadded(shorter, n);
        assert(shorter.take(n) =~= field.take(n));
    } else {
        assert(field.take(n) =~= field);
        if n > 0 {
            assert(stored_byte(field[n - 1]));
        }
    }
}

proof fn lemma_padded_field(s: Seq<char>, n: nat)
    requires
        s.len() <= n,
        storable(s),
    ensures
        field_of(padded(s, n), s.len() as int),
{
    let field = padded(s, n);
    assert forall|i: int| 0 <= i < s.len() implies stored_byte(#[trigger] field[i]) by {
        assert(name_byte(s[i]) is Some);
        lemma_name_byte(s[i]);
    }
}

proof fn lemma_name_byte(c: char)
    requires
        name_byte(c) is Some,
    ensures
        stored_byte(name_byte(c).unwrap()),
        folded(name_byte(c).unwrap() as char) == folded(c),
        c != '.',
        name_byte(c).unwrap() != 0xE5,
        name_byte(c).unwrap() != 0,
{
}

proof fn lemma_same_byte(b: u8, c: char)
    requires
        stored_byte(b),
        folded(b as char) == folded(c),
    ensures
        name_byte(c) == Some(b),
{
}

/// The stored form of a name is a stored name, and its first byte marks no free entry.
pub proof fn short_name_is_stored(name: Seq<char>)
    requires
        short_name(name) is Some,
    ensures
        is_short_name(short_name(name).unwrap()),
        short_name(name).unwrap()[0] != 0,
        short_name(name).unwrap()[0] != 0xE5,
{
    let base = base_of(name);
    let extension = extension_of(name);
    let raw = short_name(name).unwrap();
    lemma_padded_field(base, 8);
    lemma_padded_field(extension, 3);
    assert(raw.subrange(0, 8) =~= padded(base, 8));
    assert(raw.subrange(8, 11) =~= padded(extension, 3));
    assert(name_byte(base[0]) is Some);
    lemma_name_byte(base[0]);
}

/// A stored name is shown as the name that it was made from, but for case, unless that ended in
/// a dot.
pub proof fn short_name_shows_the_name(name: Seq<char>)
    requires
        short_name(name) is Some,
        name.last() != '.',
    ensures
        same_name(shown_name(short_name(name).unwrap()), name),
{
    let base = base_of(name);
    let extension = extension_of(name);
    let raw = short_name(name).unwrap();
    lemma_last_dot(name);
    lemma_padded_field(base, 8);
    lemma_padded_field(extension, 3);
    assert(raw.subrange(0, 8) =~= padded(base, 8));
    assert(raw.subrange(8, 11) =~= padded(extension, 3));
    lemma_unpadded(padded(base, 8), base.len() as int);
    lemma_unpadded(padded(extension, 3), extension.len() as int);
    let shown = shown_name(raw);
    if last_dot(name) >= 0 {
        assert(extension.len() > 0);
    }
    assert(shown.len() == name.len());
    assert forall|i: int| 0 <= i < shown.len() implies folded(#[trigger] shown[i]) == folded(
        name[i],
    ) by {
        if i < base.len() {
            assert(name_byte(base[i]) is Some);
            lemma_name_byte(base[i]);
        } else if i > base.len() {
            let k = i - base.len() - 1;
            assert(name_byte(extension[k]) is Some);
            lemma_name_byte(extension[k]);
        }
    }
}

/// Only one stored name is shown as a given name: the stored form of that name.
pub proof fn shown_name_is_unique(raw: Seq<u8>, name: Seq<char>)
    requires
        is_short_name(raw),
        same_name(shown_name(raw), name),
    ensures
        short_name(name) == Some(raw),
{
    let first = raw.subrange(0, 8);
    let second = raw.subrange(8, 11);
    let n = choose|n: int| n > 0 && field_of(first, n);
    let k = choose|k: int| field_of(second, k);
    lemma_unpadded(first, n);
    lemma_unpadded(second, k);
    let shown = shown_name(raw);
    assert forall|i: int| 0 <= i < n implies name_byte(#[trigger] name[i]) == Some(raw[i]) by {
        assert(stored_byte(first[i]));
        assert(shown[i] == raw[i] as char);
        lemma_same_byte(raw[i], name[i]);
    }
    assert forall|i: int| 0 <= i < k implies name_byte(#[trigger] name[n + 1 + i]) == Some(
        raw[8 + i],
    ) by {
        assert(stored_byte(second[i]));
        assert(shown[n + 1 + i] == raw[8 + i] as char);
        lemma_same_byte(raw[8 + i], name[n + 1 + i]);
    }
    if k == 0 {
        assert forall|i: int| 0 <= i < name.len() implies name[i] != '.' by {
            assert(name_byte(name[i]) is Some);
            lemma_name_byte(name[i]);
        }
        lemma_last_dot_is(name, -1);
        assert(base_of(name) =~= name);
    } else {
        assert(shown[n] == '.');
        assert(folded(shown[n]) == folded(name[n]));
        assert(name[n] as u32 == 0x2E);
        vstd::utf8::char_u32_cast(name[n], 0x2E);
        assert forall|i: int| n < i < name.len() implies name[i] != '.' by {
            assert(name_byte(name[n + 1 + (i - n - 1)]) is Some);
            lemma_name_byte(name[i]);
        }
        lemma_last_dot_is(name, n);
    }
    let base = base_of(name);
    let extension = extension_of(name);
    assert(base.len() == n && extension.len() == k);
    assert forall|i: int| 0 <= i < base.len() implies name_byte(#[trigger] base[i]) is Some by {
        assert(base[i] == name[i]);
    }
    assert forall|i: int| 0 <= i < extension.len() implies name_byte(
        #[trigger] extension[i],
    ) is Some by {
        assert(extension[i] == name[n + 1 + i]);
    }
    let made = padded(base, 8) + padded(extension, 3);
    assert forall|i: int| 0 <= i < 11 implies made[i] == raw[i] by {
        if i < 8 {
            assert(first[i] == raw[i]);
            if i < n {
                assert(base[i] == name[i]);
            }
        } else {
            assert(second[i - 8] == raw[i]);
            if i - 8 < k {
                assert(extension[i - 8] == name[n + 1 + (i - 8)]);
            }
        }
    }
    assert(made =~= raw);
}

} // verus!
