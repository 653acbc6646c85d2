//! Paths as they are typed: relative to the working directory, with `.` and `..`.

use vstd::prelude::*;

use crate::text;
use crate::text::{append_chars, chars_of, copy_of, same_chars, split_at, string_of};

verus! {

/// A component that stays where it is: an empty one, or `.`.
pub open spec fn stays(part: Seq<char>) -> bool {
    part.len() == 0 || part == seq!['.']
}

/// The component that goes up one level.
pub open spec fn goes_up(part: Seq<char>) -> bool {
    part == seq!['.', '.']
}

/// Where one more component leads.
pub open spec fn walked(comps: Seq<Seq<char>>, part: Seq<char>) -> Seq<Seq<char>> {
    if stays(part) {
        comps
    } else if goes_up(part) {
        if comps.len() == 0 {
            comps
        } else {
            comps.drop_last()
        }
    } else {
        comps.push(part)
    }
}

/// Where the first `n` parts lead from `comps`.
pub open spec fn walk(comps: Seq<Seq<char>>, parts: Seq<Seq<char>>, n: int) -> Seq<Seq<char>>
    decreases n,
{
    if n <= 0 {
        comps
    } else {
        walked(walk(comps, parts, n - 1), parts[n - 1])
    }
}

/// Where the parts between the slashes of `path` lead from `comps`.
pub open spec fn walk_path(comps: Seq<Seq<char>>, path: Seq<char>) -> Seq<Seq<char>> {
    let parts = text::split(path, '/');
    walk(comps, parts, parts.len() as int)
}

/// The components that a path leads to: from the root if it starts with a slash, else from the
/// working directory.
pub open spec fn resolved_components(cwd: Seq<char>, arg: Seq<char>) -> Seq<Seq<char>> {
    if arg.len() > 0 && arg[0] == '/' {
        walk_path(Seq::empty(), arg)
    } else {
        walk_path(walk_path(Seq::empty(), cwd), arg)
    }
}

/// The first `n` components, each behind a slash.
pub open spec fn joined(comps: Seq<Seq<char>>, n: int) -> Seq<char>
    decreases n,
{
    if n <= 0 {
        Seq::empty()
    } else {
        joined(comps, n - 1).push('/') + comps[n - 1]
    }
}

/// The absolute path of components.
pub open spec fn absolute(comps: Seq<Seq<char>>) -> Seq<char> {
    if comps.len() == 0 {
        seq!['/']
    } else {
        joined(comps, comps.len() as int)
    }
}

/// The absolute path that `arg` stands for in the working directory `cwd`.
pub open spec fn resolved(cwd: Seq<char>, arg: Seq<char>) -> Seq<char> {
    absolute(resolved_components(cwd, arg))
}

/// Follows the parts of `path` from `comps`.
fn follow(comps: &mut Vec<Vec<char>>, path: &Vec<char>)
    ensures
        text::words_view(final(comps)@) == walk_path(text::words_view(old(comps)@), path@),
{
    let parts: Vec<Vec<char>> = split_at(path, '/');
    let mut dot: Vec<char> = Vec::new();
    dot.push('.');
    let mut dots: Vec<char> = Vec::new();
    dots.push('.');
    dots.push('.');
    assert(dot@ =~= seq!['.']);
    assert(dots@ =~= seq!['.', '.']);
    let ghost start = text::words_view(comps@);
    let ghost views = text::words_view(parts@);
    let mut i: usize = 0;
    while i < parts.len()
        invariant
            i <= parts@.len(),
            views == text::words_view(parts@),
            dot@ == seq!['.'],
            dots@ == seq!['.', '.'],
            text::words_view(comps@) == walk(start, views, i as int),
        decreases parts@.len() - i,
    {
        let part: &Vec<char> = &parts[i];
        let ghost before = text::words_view(comps@);
        assert(views[i as int] == part@);
        assert(before.len() == comps@.len());
        if part.len() == 0 || same_chars(part, &dot) {
        } else if same_chars(part, &dots) {
            if comps.len() > 0 {
                let _last: Option<Vec<char>> = comps.pop();
                assert(text::words_view(comps@) =~= before.drop_last());
            }
        } else {
            let p: Vec<char> = copy_of(part);
            comps.push(p);
            assert(text::words_view(comps@) =~= before.push(views[i as int]));
        }
        i = i + 1;
    }
}

/// The absolute path that `arg` stands for in the working directory `cwd`.
pub fn resolve_path(cwd: &str, arg: &str) -> (path: String)
    ensures
        path@ == resolved(cwd@, arg@),
{
    let arg: Vec<char> = chars_of(arg);
    let mut comps: Vec<Vec<char>> = Vec::new();
    assert(text::words_view(comps@) =~= Seq::empty());
    if !(arg.len() > 0 && arg[0] == '/') {
        follow(&mut comps, &chars_of(cwd));
    }
    follow(&mut comps, &arg);
    let ghost views = text::words_view(comps@);
    assert(views.len() == comps@.len());
    let mut out: Vec<char> = Vec::new();
    if comps.len() == 0 {
        out.push('/');
        assert(out@ =~= seq!['/']);
        return string_of(&out);
    }
    let mut i: usize = 0;
    while i < comps.len()
        invariant
            i <= comps@.len(),
            views == text::words_view(comps@),
            out@ == joined(views, i as int),
        decreases comps@.len() - i,
    {
        out.push('/');
        append_chars(&mut out, &comps[i]);
        assert(views[i as int] == comps@[i as int]@);
        i = i + 1;
    }
    string_of(&out)
}

// Laws.

/// A component that names an entry: not empty, neither `.` nor `..`, and without a slash.
pub open spec fn is_name(part: Seq<char>) -> bool {
    !stays(part) && !goes_up(part) && !part.contains('/')
}

/// Whether every component names an entry.
pub open spec fn all_names(comps: Seq<Seq<char>>) -> bool {
    forall|i: int| 0 <= i < comps.len() ==> is_name(#[trigger] comps[i])
}

/// No part between slashes holds a slash.
proof fn lemma_parts(s: Seq<char>)
    ensures
        forall|i: int|
            0 <= i < text::split(s, '/').len() ==> !(#[trigger] text::split(s, '/')[i]).contains('/'),
    decreases s.len(),
{
    text::split_nonempty(s, '/');
    if s.len() > 0 {
        lemma_parts(s.drop_last());
        text::split_nonempty(s.drop_last(), '/');
        let before = text::split(s.drop_last(), '/');
        let last = before.last();
        if s.last() != '/' {
            assert(!last.contains('/'));
            assert(!last.push(s.last()).contains('/')) by {
                if last.push(s.last()).contains('/') {
                    let k = choose|k: int|
                        0 <= k < last.push(s.last()).len() && last.push(s.last())[k] == '/';
                    assert(last[k] == '/');
                }
            }
        }
    }
}

/// Following parts keeps every component a name.
proof fn lemma_walk(comps: Seq<Seq<char>>, parts: Seq<Seq<char>>, n: int)
    requires
        all_names(comps),
        0 <= n <= parts.len(),
        forall|i: int| 0 <= i < parts.len() ==> !(#[trigger] parts[i]).contains('/'),
    ensures
        all_names(walk(comps, parts, n)),
    decreases n,
{
    if n > 0 {
        lemma_walk(comps, parts, n - 1);
    }
}

/// A resolved path leads to names only: no empty component, no `.` and no `..` is left.
pub proof fn resolved_path_is_normal(cwd: Seq<char>, arg: Seq<char>)
    ensures
        all_names(resolved_components(cwd, arg)),
        resolved(cwd, arg).len() > 0 && resolved(cwd, arg)[0] == '/',
{
    lemma_parts(cwd);
    lemma_parts(arg);
    let c = text::split(cwd, '/');
    let a = text::split(arg, '/');
    lemma_walk(Seq::empty(), c, c.len() as int);
    lemma_walk(Seq::empty(), a, a.len() as int);
    lemma_walk(walk_path(Seq::empty(), cwd), a, a.len() as int);
    let comps = resolved_components(cwd, arg);
    if comps.len() > 0 {
        lemma_starts(comps, comps.len() as int);
    }
}

/// A joined path starts with a slash.
proof fn lemma_starts(comps: Seq<Seq<char>>, n: int)
    requires
        n > 0,
    ensures
        joined(comps, n).len() > 0 && joined(comps, n)[0] == '/',
    decreases n,
{
    reveal_with_fuel(joined, 2);
    if n > 1 {
        lemma_starts(comps, n - 1);
    }
}

/// Appending characters without a slash extends the last part.
proof fn lemma_split_append(s: Seq<char>, w: Seq<char>)
    requires
        !w.contains('/'),
    ensures
        text::split(s + w, '/') == text::split(s, '/').update(
            text::split(s, '/').len() - 1,
            text::split(s, '/').last() + w,
        ),
    decreases w.len(),
{
    text::split_nonempty(s, '/');
    let parts = text::split(s, '/');
    if w.len() == 0 {
        assert(s + w =~= s);
        assert(parts.last() + w =~= parts.last());
        assert(parts.update(parts.len() - 1, parts.last()) =~= parts);
    } else {
        let v = w.drop_last();
        assert(!v.contains('/')) by {
            if v.contains('/') {
                let k = choose|k: int| 0 <= k < v.len() && v[k] == '/';
                assert(w[k] == '/');
            }
        }
        assert(w.last() != '/') by {
            assert(w[w.len() - 1] == w.last());
        }
        lemma_split_append(s, v);
        assert((s + w).drop_last() =~= s + v);
        assert((parts.last() + v).push(w.last()) =~= parts.last() + w);
        let mid = parts.update(parts.len() - 1, parts.last() + v);
        assert(mid.last() == parts.last() + v);
        assert(mid.update(mid.len() - 1, mid.last().push(w.last())) =~= parts.update(
            parts.len() - 1,
            parts.last() + w,
        ));
    }
}

/// The parts of a joined path are an empty one and its components.
proof fn lemma_split_joined(comps: Seq<Seq<char>>, n: int)
    requires
        all_names(comps),
        0 <= n <= comps.len(),
    ensures
        text::split(joined(comps, n), '/') == seq![Seq::<char>::empty()] + comps.take(n),
    decreases n,
{
    if n == 0 {
        assert(seq![Seq::<char>::empty()] + comps.take(0) =~= seq![Seq::<char>::empty()]);
    } else {
        lemma_split_joined(comps, n - 1);
        let s = joined(comps, n - 1);
        let before = text::split(s, '/');
        assert(s.push('/').drop_last() =~= s);
        assert(text::split(s.push('/'), '/') == before.push(Seq::empty()));
        assert(is_name(comps[n - 1]));
        lemma_split_append(s.push('/'), comps[n - 1]);
        assert(Seq::<char>::empty() + comps[n - 1] =~= comps[n - 1]);
        assert(before.push(Seq::empty()).update(before.len() as int, comps[n - 1]) =~= seq![
            Seq::<char>::empty(),
        ] + comps.take(n));
    }
}

/// Following an empty part and names adds the names.
proof fn lemma_walk_names(comps: Seq<Seq<char>>, n: int)
    requires
        all_names(comps),
        0 <= n <= comps.len(),
    ensures
        walk(Seq::empty(), seq![Seq::<char>::empty()] + comps, n + 1) == comps.take(n),
    decreases n,
{
    let parts = seq![Seq::<char>::empty()] + comps;
    if n == 0 {
        reveal_with_fuel(walk, 2);
        assert(stays(parts[0]));
        assert(comps.take(0) =~= Seq::empty());
    } else {
        lemma_walk_names(comps, n - 1);
        assert(parts[n] == comps[n - 1]);
        assert(is_name(comps[n - 1]));
        assert(comps.take(n - 1).push(comps[n - 1]) =~= comps.take(n));
    }
}

/// A resolved path stands for itself, whatever the working directory.
pub proof fn resolved_path_is_stable(cwd: Seq<char>, arg: Seq<char>, other: Seq<char>)
    ensures
        resolved(other, resolved(cwd, arg)) == resolved(cwd, arg),
{
    resolved_path_is_normal(cwd, arg);
    let comps = resolved_components(cwd, arg);
    let path = resolved(cwd, arg);
    if comps.len() == 0 {
        reveal_with_fuel(text::split, 3);
        reveal_with_fuel(walk, 4);
        assert(path.drop_last() =~= Seq::<char>::empty());
        let parts = text::split(path, '/');
        assert(parts =~= seq![Seq::<char>::empty(), Seq::<char>::empty()]);
        assert(stays(parts[0]) && stays(parts[1]));
        assert(walk_path(Seq::empty(), path) =~= Seq::empty());
    } else {
        lemma_split_joined(comps, comps.len() as int);
        assert(comps.take(comps.len() as int) =~= comps);
        lemma_walk_names(comps, comps.len() as int);
        assert(walk_path(Seq::empty(), path) == comps);
    }
}

/// Going up from the root stays at the root.
pub proof fn root_has_no_parent(cwd: Seq<char>)
    requires
        walk_path(Seq::empty(), cwd).len() == 0,
    ensures
        resolved(cwd, seq!['.', '.']) == seq!['/'],
{
    let arg = seq!['.', '.'];
    reveal_with_fuel(text::split, 4);
    reveal_with_fuel(walk, 2);
    assert(arg.drop_last() =~= seq!['.']);
    assert(seq!['.'].drop_last() =~= Seq::<char>::empty());
    assert(text::split(arg, '/').len() == 1);
    assert(text::split(arg, '/')[0] =~= arg);
}

/// Following two parts one behind the other follows them over the slash between them.
proof fn lemma_walk_on(comps: Seq<Seq<char>>, a: Seq<Seq<char>>, b: Seq<Seq<char>>, n: int)
    requires
        0 <= n <= b.len(),
    ensures
        walk(comps, a + b, a.len() + n) == walk(walk(comps, a, a.len() as int), b, n),
    decreases n,
{
    if n == 0 {
        lemma_walk_prefix(comps, a, b, a.len() as int);
    } else {
        lemma_walk_on(comps, a, b, n - 1);
        assert((a + b)[a.len() + n - 1] == b[n - 1]);
    }
}

proof fn lemma_walk_prefix(comps: Seq<Seq<char>>, a: Seq<Seq<char>>, b: Seq<Seq<char>>, n: int)
    requires
        0 <= n <= a.len(),
    ensures
        walk(comps, a + b, n) == walk(comps, a, n),
    decreases n,
{
    if n > 0 {
        lemma_walk_prefix(comps, a, b, n - 1);
        assert((a + b)[n - 1] == a[n - 1]);
    }
}

/// A path is walked part by part: over a slash on with the rest, down by a name, up by two dots
/// unless at the root, and nowhere by one dot or by nothing.
pub proof fn path_is_walked_part_by_part(
    comps: Seq<Seq<char>>,
    a: Seq<char>,
    b: Seq<char>,
    name: Seq<char>,
)
    requires
        name.len() > 0,
        name != seq!['.'],
        name != seq!['.', '.'],
        !name.contains('/'),
    ensures
        walk_path(comps, a + seq!['/'] + b) == walk_path(walk_path(comps, a), b),
        walk_path(comps, name) == comps + seq![name],
        walk_path(comps, Seq::empty()) == comps,
        walk_path(comps, seq!['.']) == comps,
        walk_path(comps, seq!['.', '.']) == (if comps.len() == 0 {
            comps
        } else {
            comps.subrange(0, comps.len() - 1)
        }),
{
    text::separator_divides(a, b, '/');
    let pa = text::split(a, '/');
    let pb = text::split(b, '/');
    lemma_walk_on(comps, pa, pb, pb.len() as int);
    assert((pa + pb).len() == pa.len() + pb.len());
    text::plain_text_is_one_part(name, '/');
    text::plain_text_is_one_part(Seq::empty(), '/');
    assert(!seq!['.'].contains('/'));
    assert(!seq!['.', '.'].contains('/'));
    text::plain_text_is_one_part(seq!['.'], '/');
    text::plain_text_is_one_part(seq!['.', '.'], '/');
    reveal_with_fuel(walk, 2);
    assert(comps.push(name) =~= comps + seq![name]);
    if comps.len() > 0 {
        assert(comps.drop_last() =~= comps.subrange(0, comps.len() - 1));
    }
}

/// A path from the root ignores the working directory, and any other starts there. The absolute
/// path has every component behind a slash; that of the root is a slash.
pub proof fn path_is_absolute(
    cwd: Seq<char>,
    arg: Seq<char>,
    comps: Seq<Seq<char>>,
    name: Seq<char>,
)
    ensures
        arg.len() > 0 && arg[0] == '/' ==> resolved(cwd, arg) == absolute(
            walk_path(Seq::empty(), arg),
        ),
        !(arg.len() > 0 && arg[0] == '/') ==> resolved(cwd, arg) == absolute(
            walk_path(walk_path(Seq::empty(), cwd), arg),
        ),
        absolute(Seq::empty()) == seq!['/'],
        absolute(seq![name]) == seq!['/'] + name,
        comps.len() > 0 ==> absolute(comps + seq![name]) == absolute(comps) + seq!['/'] + name,
{
    reveal_with_fuel(joined, 2);
    assert(absolute(seq![name]) =~= seq!['/'] + name);
    let longer = comps + seq![name];
    let n = comps.len() as int;
    lemma_joined_prefix(comps, name, n);
    assert(longer[n] == name);
    assert(joined(longer, n + 1) =~= joined(comps, n) + seq!['/'] + name);
}

proof fn lemma_joined_prefix(comps: Seq<Seq<char>>, name: Seq<char>, n: int)
    requires
        0 <= n <= comps.len(),
    ensures
        joined(comps + seq![name], n) == joined(comps, n),
    decreases n,
{
    if n > 0 {
        lemma_joined_prefix(comps, name, n - 1);
        assert((comps + seq![name])[n - 1] == comps[n - 1]);
    }
}

} // verus!
