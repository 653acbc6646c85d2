//! Names as the entries of a directory store and show them.

use vstd::prelude::*;

use crate::fat::name;

verus! {

/// `n` spaces.
pub open spec fn spaces(n: nat) -> Seq<u8> {
    Seq::new(n, |i: int| 0x20u8)
}

/// The eleven bytes that store a base and an extension.
pub open spec fn layout(base: Seq<u8>, ext: Seq<u8>) -> Seq<u8> {
    base + spaces((8 - base.len()) as nat) + ext + spaces((3 - ext.len()) as nat)
}

/// Bytes as characters.
pub open spec fn letters(s: Seq<u8>) -> Seq<char> {
    Seq::new(s.len(), |i: int| s[i] as char)
}

proof fn lemma_unpadded(part: Seq<u8>, k: nat)
    requires
        part.len() == 0 || part.last() != 0x20,
    ensures
        name::unpadded(part + spaces(k)) == part,
    decreases k,
{
    let field = part + spaces(k);
    if k > 0 {
        assert(field.last() == 0x20);
        assert(field.drop_last() =~= part + spaces((k - 1) as nat));
        lemma_unpadded(part, (k - 1) as nat);
    } else {
        assert(field =~= part);
    }
}

/// A stored name is shown without what pads it: the base alone if there is no extension, and
/// else the base, a dot and the extension. Spaces within a part are kept.
pub proof fn stored_name_is_shown(base: Seq<u8>, ext: Seq<u8>)
    requires
        0 < base.len() <= 8,
        base.last() != 0x20,
        ext.len() <= 3,
        ext.len() == 0 || ext.last() != 0x20,
    ensures
        name::shown_name(layout(base, ext)) == if ext.len() == 0 {
            letters(base)
        } else {
            letters(base) + seq!['.'] + letters(ext)
        },
{
    let raw = layout(base, ext);
    assert(raw.subrange(0, 8) =~= base + spaces((8 - base.len()) as nat));
    assert(raw.subrange(8, 11) =~= ext + spaces((3 - ext.len()) as nat));
    lemma_unpadded(base, (8 - base.len()) as nat);
    lemma_unpadded(ext, (3 - ext.len()) as nat);
    assert(name::as_chars(base) =~= letters(base));
    assert(name::as_chars(ext) =~= letters(ext));
}

/// Whether a character may stand in a name: a letter, a digit, or one of `_-~!#$%&()`.
pub open spec fn may_stand(c: char) -> bool {
    let n = c as int;
    ||| 0x61 <= n <= 0x7A
    ||| 0x41 <= n <= 0x5A
    ||| 0x30 <= n <= 0x39
    ||| n == 0x5F || n == 0x2D || n == 0x7E || n == 0x21 || n == 0x23 || n == 0x24 || n == 0x25
        || n == 0x26 || n == 0x28 || n == 0x29
}

/// The byte that stores a character: letters are stored upper-case.
pub open spec fn upper(c: char) -> u8 {
    if 0x61 <= c as int <= 0x7A {
        (c as int - 0x20) as u8
    } else {
        c as u8
    }
}

/// The bytes that store characters.
pub open spec fn uppers(s: Seq<char>) -> Seq<u8> {
    Seq::new(s.len(), |i: int| upper(s[i]))
}

/// Whether every character of a part of a name may stand there.
pub open spec fn is_part(s: Seq<char>) -> bool {
    forall|i: int| 0 <= i < s.len() ==> may_stand(#[trigger] s[i])
}

proof fn lemma_no_dot(s: Seq<char>)
    requires
        forall|i: int| 0 <= i < s.len() ==> s[i] != '.',
    ensures
        name::last_dot(s) == -1,
    decreases s.len(),
{
    if s.len() > 0 {
        assert forall|i: int| 0 <= i < s.drop_last().len() implies s.drop_last()[i] != '.' by {
            assert(s[i] != '.');
        }
        lemma_no_dot(s.drop_last());
    }
}

proof fn lemma_dot_at(s: Seq<char>, d: int)
    requires
        0 <= d < s.len(),
        s[d] == '.',
        forall|i: int| d < i < s.len() ==> s[i] != '.',
    ensures
        name::last_dot(s) == d,
    decreases s.len(),
{
    if d < s.len() - 1 {
        assert forall|i: int| d < i < s.drop_last().len() implies s.drop_last()[i] != '.' by {
            assert(s[i] != '.');
        }
        lemma_dot_at(s.drop_last(), d);
    }
}

/// A name without an extension, of up to eight characters that may stand in one, is stored in
/// upper case and padded.
pub proof fn plain_name_is_stored(base: Seq<char>)
    requires
        0 < base.len() <= 8,
        is_part(base),
    ensures
        name::short_name(base) == Some(layout(uppers(base), Seq::empty())),
{
    assert forall|i: int| 0 <= i < base.len() implies base[i] != '.' by {
        assert(may_stand(base[i]));
    }
    lemma_no_dot(base);
    lemma_part_stored(base);
    assert(name::padded(base, 8) + name::padded(Seq::empty(), 3) =~= layout(
        uppers(base),
        Seq::empty(),
    )) by {
        assert forall|i: int| 0 <= i < base.len() implies name::name_byte(#[trigger] base[i])
            == Some(upper(base[i])) by {
            assert(may_stand(base[i]));
        }
    }
}

/// A name with an extension of up to three characters is stored in its two parts.
pub proof fn name_with_extension_is_stored(base: Seq<char>, ext: Seq<char>)
    requires
        0 < base.len() <= 8,
        0 < ext.len() <= 3,
        is_part(base),
        is_part(ext),
    ensures
        name::short_name(base + seq!['.'] + ext) == Some(layout(uppers(base), uppers(ext))),
{
    let all = base + seq!['.'] + ext;
    let d = base.len() as int;
    assert forall|i: int| d < i < all.len() implies all[i] != '.' by {
        assert(all[i] == ext[i - d - 1]);
        assert(may_stand(ext[i - d - 1]));
    }
    lemma_dot_at(all, d);
    assert(all.take(d) =~= base);
    assert(all.skip(d + 1) =~= ext);
    lemma_part_stored(base);
    lemma_part_stored(ext);
    assert(name::padded(base, 8) + name::padded(ext, 3) =~= layout(uppers(base), uppers(ext))) by {
        assert forall|i: int| 0 <= i < base.len() implies name::name_byte(#[trigger] base[i])
            == Some(upper(base[i])) by {
            assert(may_stand(base[i]));
        }
        assert forall|i: int| 0 <= i < ext.len() implies name::name_byte(#[trigger] ext[i]) == Some(
            upper(ext[i]),
        ) by {
            assert(may_stand(ext[i]));
        }
    }
}

proof fn lemma_part_stored(s: Seq<char>)
    requires
        is_part(s),
    ensures
        name::storable(s),
{
    assert forall|i: int| 0 <= i < s.len() implies name::name_byte(#[trigger] s[i]) is Some by {
        assert(may_stand(s[i]));
    }
}

proof fn lemma_byte(c: char)
    ensures
        name::name_byte(c) is Some <==> may_stand(c),
        may_stand(c) ==> name::name_byte(c) == Some(upper(c)),
{
}

proof fn lemma_folded(a: char, b: char)
    ensures
        name::folded(a) == name::folded(b) <==> a as int == b as int || other_case(a, b),
{
}

/// A name does not fit if what stands before its last dot is empty or longer than eight, what
/// stands behind it is longer than three, or a character is none that may stand in a name.
pub proof fn unfit_name_is_refused(base: Seq<char>, ext: Seq<char>)
    requires
        forall|i: int| 0 <= i < ext.len() ==> ext[i] != '.',
        base.len() == 0 || base.len() > 8 || ext.len() > 3 || !is_part(base) || !is_part(ext),
    ensures
        name::short_name(base + seq!['.'] + ext) is None,
{
    let all = base + seq!['.'] + ext;
    let d = base.len() as int;
    assert forall|i: int| d < i < all.len() implies all[i] != '.' by {
        assert(all[i] == ext[i - d - 1]);
    }
    lemma_dot_at(all, d);
    assert(all.take(d) =~= base);
    assert(all.skip(d + 1) =~= ext);
    if !is_part(base) {
        let i = choose|i: int| 0 <= i < base.len() && !may_stand(#[trigger] base[i]);
        lemma_byte(base[i]);
    }
    if !is_part(ext) {
        let i = choose|i: int| 0 <= i < ext.len() && !may_stand(#[trigger] ext[i]);
        lemma_byte(ext[i]);
    }
}

/// A letter in the other case.
pub open spec fn other_case(a: char, b: char) -> bool {
    ||| 0x61 <= a as int <= 0x7A && b as int == a as int - 0x20
    ||| 0x41 <= a as int <= 0x5A && b as int == a as int + 0x20
}

/// Names are the same exactly if they differ in nothing but the case of letters.
pub proof fn names_differ_in_more_than_case(a: Seq<char>, b: Seq<char>)
    ensures
        name::same_name(a, b) <==> a.len() == b.len() && forall|i: int|
            0 <= i < a.len() ==> #[trigger] a[i] as int == b[i] as int || other_case(a[i], b[i]),
{
    if a.len() == b.len() && !name::same_name(a, b) {
        let i = choose|i: int|
            0 <= i < a.len() && name::folded(#[trigger] a[i]) != name::folded(b[i]);
        lemma_folded(a[i], b[i]);
        assert(!(a[i] as int == b[i] as int || other_case(a[i], b[i])));
    }
    if name::same_name(a, b) {
        assert forall|i: int| 0 <= i < a.len() implies #[trigger] a[i] as int == b[i] as int
            || other_case(a[i], b[i]) by {
            assert(name::folded(a[i]) == name::folded(b[i]));
            lemma_folded(a[i], b[i]);
        }
    }
}

} // verus!
