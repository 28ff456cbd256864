//! Paths as text: joining, and the extension of a file name.

use crate::text::{chars_of, slice_of};
use vstd::prelude::*;

verus! {

/// `part` below `base`. An absolute part replaces the base, and there is one separator between them
/// where the base does not end in one.
pub open spec fn joined(base: Seq<char>, part: Seq<char>) -> Seq<char> {
    if (part.len() > 0 && part[0] == '/') || base.len() == 0 {
        part
    } else if base.last() == '/' {
        base + part
    } else {
        base + seq!['/'] + part
    }
}

/// `part` below `base`.
pub fn join_path(base: &str, part: &str) -> (path: String)
    ensures
        path@ == joined(base@, part@),
{
    let front = chars_of(base);
    let back = chars_of(part);
    if (back.len() > 0 && back[0] == '/') || front.len() == 0 {
        return part.to_owned();
    }
    let mut path = base.to_owned();
    if front[front.len() - 1] != '/' {
        path.push('/');
    }
    path.append(part);
    assert(path@ =~= joined(base@, part@));
    path
}

/// A path below an absolute or relative base, joined with relative parts, keeps the base in front.
pub proof fn joining_keeps_the_base(base: Seq<char>, part: Seq<char>)
    requires
        part.len() == 0 || part[0] != '/',
    ensures
        joined(base, part).len() >= base.len(),
        joined(base, part).take(base.len() as int) == base,
        joined(base, part).skip(joined(base, part).len() - part.len()) == part,
{
    let path = joined(base, part);
    assert(path.take(base.len() as int) =~= base);
    assert(path.skip(path.len() - part.len()) =~= part);
}

/// A path without what adds no component at its end: separators, and dots behind a separator.
pub open spec fn without_idle_end(path: Seq<char>) -> Seq<char>
    decreases path.len(),
{
    if path.len() > 0 && (path.last() == '/' || (path.last() == '.' && path.len() > 1
        && path[path.len() - 2] == '/')) {
        without_idle_end(path.drop_last())
    } else {
        path
    }
}

/// What follows the last `c` of `s`, if `c` occurs.
pub open spec fn after_last(s: Seq<char>, c: char) -> Option<Seq<char>>
    decreases s.len(),
{
    if s.len() == 0 {
        None
    } else if s.last() == c {
        Some(Seq::empty())
    } else {
        match after_last(s.drop_last(), c) {
            Some(rest) => Some(rest.push(s.last())),
            None => None,
        }
    }
}

/// The last component of a path.
pub open spec fn last_component(path: Seq<char>) -> Seq<char> {
    let path = without_idle_end(path);
    match after_last(path, '/') {
        Some(name) => name,
        None => path,
    }
}

/// The extension of the file that a path names: what follows the last dot of its name, unless the
/// dot is the first character. The names `.` and `..` are directories.
pub open spec fn extension(path: Seq<char>) -> Option<Seq<char>> {
    let name = last_component(path);
    match after_last(name, '.') {
        Some(end) => if end.len() + 1 == name.len() || name == seq!['.', '.'] {
            None
        } else {
            Some(end)
        },
        None => None,
    }
}

/// Where what follows the last `c` begins; none if `c` does not occur.
fn behind_last(chars: &Vec<char>, to: usize, c: char) -> (from: Option<usize>)
    requires
        to <= chars.len(),
    ensures
        from is Some <==> after_last(chars@.take(to as int), c) is Some,
        from matches Some(at) ==> at <= to && after_last(chars@.take(to as int), c) == Some(
            chars@.subrange(at as int, to as int),
        ),
    decreases to,
{
    if to == 0 {
        return None;
    }
    assert(chars@.take(to as int).drop_last() =~= chars@.take(to - 1));
    if chars[to - 1] == c {
        assert(chars@.subrange(to as int, to as int) =~= Seq::empty());
        return Some(to);
    }
    let from = behind_last(chars, to - 1, c);
    proof {
        if let Some(at) = from {
            assert(chars@.subrange(at as int, to - 1).push(chars@[to - 1]) =~= chars@.subrange(
                at as int,
                to as int,
            ));
        }
    }
    from
}

/// The extension of the file that a path names.
pub fn extension_of(path: &str) -> (ending: Option<Vec<char>>)
    ensures
        ending is Some <==> extension(path@) is Some,
        ending is Some ==> extension(path@) == Some(ending->0@),
{
    let chars = chars_of(path);
    let mut to: usize = chars.len();
    assert(chars@.take(to as int) =~= path@);
    while to > 0 && (chars[to - 1] == '/' || (chars[to - 1] == '.' && to > 1 && chars[to - 2]
        == '/'))
        invariant
            to <= chars@.len(),
            without_idle_end(path@) == without_idle_end(chars@.take(to as int)),
        decreases to,
    {
        assert(chars@.take(to as int).drop_last() =~= chars@.take(to - 1));
        to = to - 1;
    }
    assert(without_idle_end(path@) == chars@.take(to as int));
    let from: usize = match behind_last(&chars, to, '/') {
        Some(from) => from,
        None => 0,
    };
    let name = slice_of(&chars, from, to);
    assert(name@ =~= last_component(path@));
    let start: usize = match behind_last(&name, name.len(), '.') {
        Some(start) => start,
        None => {
            assert(name@.take(name@.len() as int) =~= name@);
            return None;
        },
    };
    assert(name@.take(name@.len() as int) =~= name@);
    let ending = slice_of(&name, start, name.len());
    let double_dot = name.len() == 2 && name[0] == '.' && name[1] == '.';
    assert(double_dot == (name@ == seq!['.', '.'])) by {
        if double_dot {
            assert(name@ =~= seq!['.', '.']);
        }
    }
    if name.len() - ending.len() == 1 || double_dot {
        return None;
    }
    Some(ending)
}

/// A relative part comes behind a base and one separator, which is not doubled; an absolute part replaces
/// the base.
pub proof fn a_part_is_one_separator_below(base: Seq<char>, part: Seq<char>)
    requires
        base.len() > 0,
        part.len() > 0,
    ensures
        part[0] == '/' ==> joined(base, part) == part,
        part[0] != '/' && base.last() != '/' ==> joined(base, part) == base + "/"@ + part,
        part[0] != '/' ==> joined(base + "/"@, part) == base + "/"@ + part,
{
    reveal_strlit("/");
    assert("/"@ =~= seq!['/']);
    assert((base + "/"@).last() == '/');
}

proof fn lemma_after_last(front: Seq<char>, c: char, back: Seq<char>)
    requires
        !back.contains(c),
    ensures
        after_last(front + seq![c] + back, c) == Some(back),
    decreases back.len(),
{
    let s = front + seq![c] + back;
    if back.len() == 0 {
        assert(s.last() == c);
        assert(back =~= Seq::empty());
    } else {
        let shorter = back.drop_last();
        assert(back.contains(back.last()));
        assert(s.last() == back.last());
        assert(s.drop_last() =~= front + seq![c] + shorter);
        assert(!shorter.contains(c)) by {
            if shorter.contains(c) {
                let k = choose|k: int| 0 <= k < shorter.len() && shorter[k] == c;
                assert(back[k] == c);
            }
        }
        lemma_after_last(front, c, shorter);
        assert(shorter.push(back.last()) =~= back);
    }
}

proof fn lemma_nothing_after_last(s: Seq<char>, c: char)
    requires
        !s.contains(c),
    ensures
        after_last(s, c) is None,
    decreases s.len(),
{
    if s.len() > 0 {
        assert(s.contains(s.last()));
        let shorter = s.drop_last();
        if shorter.contains(c) {
            let k = choose|k: int| 0 <= k < shorter.len() && shorter[k] == c;
            assert(s[k] == c);
        }
        lemma_nothing_after_last(shorter, c);
    }
}

/// The extension of a file in any directory is what follows the last dot of its name, if anything stands in
/// front of that dot.
pub proof fn the_extension_follows_the_last_dot(dir: Seq<char>, stem: Seq<char>, ending: Seq<char>)
    requires
        stem.len() > 0,
        !stem.contains('/'),
        ending.len() > 0,
        !ending.contains('/'),
        !ending.contains('.'),
    ensures
        extension(stem + seq!['.'] + ending) == Some(ending),
        extension(dir + seq!['/'] + (stem + seq!['.'] + ending)) == Some(ending),
        extension(dir + seq!['/'] + (seq!['.'] + ending)) is None,
{
    let name = stem + seq!['.'] + ending;
    let path = dir + seq!['/'] + name;
    let hidden = seq!['.'] + ending;
    let other = dir + seq!['/'] + hidden;
    assert(ending.contains(ending.last()));
    assert(name.last() == ending.last() && path.last() == ending.last());
    assert(hidden.last() == ending.last() && other.last() == ending.last());
    assert(!name.contains('/')) by {
        if name.contains('/') {
            let k = choose|k: int| 0 <= k < name.len() && name[k] == '/';
            if k < stem.len() {
                assert(stem[k] == '/');
            } else if k > stem.len() {
                assert(ending[k - stem.len() - 1] == '/');
            }
        }
    }
    assert(!hidden.contains('/')) by {
        if hidden.contains('/') {
            let k = choose|k: int| 0 <= k < hidden.len() && hidden[k] == '/';
            if k > 0 {
                assert(ending[k - 1] == '/');
            }
        }
    }
    lemma_nothing_after_last(name, '/');
    lemma_after_last(dir, '/', name);
    lemma_after_last(dir, '/', hidden);
    lemma_after_last(stem, '.', ending);
    lemma_after_last(Seq::empty(), '.', ending);
    assert(Seq::<char>::empty() + seq!['.'] + ending =~= hidden);
}

} // verus!
