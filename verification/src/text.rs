//! Character-level text operations: trimming, splitting, searching and ordering.

use vstd::prelude::*;

verus! {

/// `String::push` appends one character to the end of the string.
pub assume_specification[ String::push ](string: &mut String, ch: char)
    ensures
        final(string)@ == old(string)@.push(ch),
;

/// The characters of `text`, in order.
pub fn chars_of(text: &str) -> (chars: Vec<char>)
    ensures
        chars@ == text@,
{
    let mut chars: Vec<char> = Vec::new();
    for c in it: text.chars()
        invariant
            chars@ =~= it.seq().take(it.index() as int),
            it.seq() == text@,
    {
        chars.push(c);
    }
    chars
}

/// The string made of `chars`, in order.
pub fn string_of(chars: &Vec<char>) -> (text: String)
    ensures
        text@ == chars@,
{
    let mut text = String::new();
    for i in 0..chars.len()
        invariant
            text@ =~= chars@.take(i as int),
    {
        text.push(chars[i]);
    }
    text
}

/// `middle` between `front` and `back`.
pub fn quoted(front: &str, middle: &str, back: &str) -> (text: String)
    ensures
        text@ == front@ + middle@ + back@,
{
    let mut text = front.to_owned();
    text.append(middle);
    text.append(back);
    text
}

/// Whether two texts hold the same characters.
pub fn same_text(left: &str, right: &str) -> (same: bool)
    ensures
        same == (left@ == right@),
{
    let a = chars_of(left);
    let b = chars_of(right);
    same_chars(&a, &b)
}

/// Whether two character vectors are equal.
pub fn same_chars(left: &Vec<char>, right: &Vec<char>) -> (same: bool)
    ensures
        same == (left@ == right@),
{
    if left.len() != right.len() {
        return false;
    }
    for i in 0..left.len()
        invariant
            left.len() == right.len(),
            forall|j: int| 0 <= j < i ==> left@[j] == right@[j],
    {
        if left[i] != right[i] {
            return false;
        }
    }
    assert(left@ =~= right@);
    true
}

/// A copy of `chars[from..to]`.
pub fn slice_of(chars: &Vec<char>, from: usize, to: usize) -> (part: Vec<char>)
    requires
        from <= to <= chars.len(),
    ensures
        part@ == chars@.subrange(from as int, to as int),
{
    let mut part: Vec<char> = Vec::new();
    for i in from..to
        invariant
            from <= to <= chars.len(),
            part@ =~= chars@.subrange(from as int, i as int),
    {
        part.push(chars[i]);
    }
    part
}

// ---------------------------------------------------------------------------------------------
// White space
// ---------------------------------------------------------------------------------------------

/// The characters with the Unicode `White_Space` property.
pub open spec fn is_space(c: char) -> bool {
    ||| '\u{9}' <= c <= '\u{d}'
    ||| c == ' '
    ||| c == '\u{85}'
    ||| c == '\u{a0}'
    ||| c == '\u{1680}'
    ||| '\u{2000}' <= c <= '\u{200a}'
    ||| c == '\u{2028}'
    ||| c == '\u{2029}'
    ||| c == '\u{202f}'
    ||| c == '\u{205f}'
    ||| c == '\u{3000}'
}

/// Whether `c` is white space.
pub fn is_space_char(c: char) -> (space: bool)
    ensures
        space == is_space(c),
{
    ('\u{9}' <= c && c <= '\u{d}') || c == ' ' || c == '\u{85}' || c == '\u{a0}' || c == '\u{1680}'
        || ('\u{2000}' <= c && c <= '\u{200a}') || c == '\u{2028}' || c == '\u{2029}'
        || c == '\u{202f}' || c == '\u{205f}' || c == '\u{3000}'
}

/// `s` without its leading white space.
pub open spec fn trim_start(s: Seq<char>) -> Seq<char>
    decreases s.len(),
{
    if s.len() > 0 && is_space(s[0]) {
        trim_start(s.skip(1))
    } else {
        s
    }
}

/// `s` without its trailing white space.
pub open spec fn trim_end(s: Seq<char>) -> Seq<char>
    decreases s.len(),
{
    if s.len() > 0 && is_space(s.last()) {
        trim_end(s.drop_last())
    } else {
        s
    }
}

/// `s` without white space at either end.
pub open spec fn trimmed(s: Seq<char>) -> Seq<char> {
    trim_end(trim_start(s))
}

/// Whether `s` holds nothing but white space.
pub open spec fn blank(s: Seq<char>) -> bool {
    forall|i: int| 0 <= i < s.len() ==> is_space(#[trigger] s[i])
}

/// A text is blank exactly when trimming leaves nothing of it.
pub proof fn trimming_a_blank_text_leaves_nothing(s: Seq<char>)
    ensures
        blank(s) <==> trimmed(s).len() == 0,
    decreases s.len(),
{
    if s.len() > 0 && is_space(s[0]) {
        trimming_a_blank_text_leaves_nothing(s.skip(1));
        assert forall|i: int| blank(s.skip(1)) && 0 <= i < s.len() implies is_space(
            #[trigger] s[i],
        ) by {
            if i > 0 {
                assert(s[i] == s.skip(1)[i - 1]);
            }
        }
        assert forall|i: int| blank(s) && 0 <= i < s.skip(1).len() implies is_space(
            #[trigger] s.skip(1)[i],
        ) by {
            assert(s.skip(1)[i] == s[i + 1]);
        }
    } else if s.len() > 0 {
        lemma_trim_end_keeps_first(s);
    }
}

proof fn lemma_trim_end_keeps_first(s: Seq<char>)
    requires
        s.len() > 0,
        !is_space(s[0]),
    ensures
        trim_end(s).len() > 0,
    decreases s.len(),
{
    if is_space(s.last()) {
        lemma_trim_end_keeps_first(s.drop_last());
    }
}

/// Whether `text` holds nothing but white space.
pub fn is_blank(text: &str) -> (is_blank: bool)
    ensures
        is_blank == blank(text@),
{
    let chars = chars_of(text);
    for i in 0..chars.len()
        invariant
            chars@ == text@,
            forall|j: int| 0 <= j < i ==> is_space(chars@[j]),
    {
        if !is_space_char(chars[i]) {
            assert(!is_space(text@[i as int]));
            return false;
        }
    }
    true
}

/// `chars` without white space at either end.
pub fn trim_chars(chars: &Vec<char>) -> (part: Vec<char>)
    ensures
        part@ == trimmed(chars@),
{
    let mut from: usize = 0;
    proof {
        assert(chars@.skip(0) =~= chars@);
    }
    while from < chars.len() && is_space_char(chars[from])
        invariant
            from <= chars.len(),
            trim_start(chars@) == trim_start(chars@.skip(from as int)),
        decreases chars.len() - from,
    {
        proof {
            assert(chars@.skip(from as int).skip(1) =~= chars@.skip(from + 1));
        }
        from = from + 1;
    }
    let ghost rest = chars@.skip(from as int);
    assert(trim_start(chars@) == rest);
    let mut to: usize = chars.len();
    proof {
        assert(chars@.subrange(from as int, to as int) =~= rest);
    }
    while to > from && is_space_char(chars[to - 1])
        invariant
            from <= to <= chars.len(),
            trim_end(rest) == trim_end(chars@.subrange(from as int, to as int)),
        decreases to - from,
    {
        proof {
            assert(chars@.subrange(from as int, to as int).drop_last() =~= chars@.subrange(
                from as int,
                to - 1,
            ));
        }
        to = to - 1;
    }
    slice_of(chars, from, to)
}

/// `text` without white space at either end.
pub fn trim_text(text: &str) -> (part: String)
    ensures
        part@ == trimmed(text@),
{
    let chars = chars_of(text);
    let part = trim_chars(&chars);
    string_of(&part)
}

// ---------------------------------------------------------------------------------------------
// Searching and splitting
// ---------------------------------------------------------------------------------------------

/// Where `c` first occurs in `s`; the length of `s` if it does not occur.
pub open spec fn first_at(s: Seq<char>, c: char) -> nat
    decreases s.len(),
{
    if s.len() == 0 || s[0] == c {
        0
    } else {
        1 + first_at(s.skip(1), c)
    }
}

/// What stands in front of the first `c`, all of `s` if there is none.
pub open spec fn before(s: Seq<char>, c: char) -> Seq<char> {
    s.take(first_at(s, c) as int)
}

/// What stands behind the first `c`, if there is one.
pub open spec fn after(s: Seq<char>, c: char) -> Option<Seq<char>> {
    if s.contains(c) {
        Some(s.skip(first_at(s, c) as int + 1))
    } else {
        None
    }
}

/// What `first_at` means: the place holds `c`, and no earlier place does.
pub proof fn first_at_is_the_first(s: Seq<char>, c: char)
    ensures
        first_at(s, c) <= s.len(),
        forall|j: int| 0 <= j < first_at(s, c) ==> s[j] != c,
        first_at(s, c) < s.len() ==> s[first_at(s, c) as int] == c,
        s.contains(c) <==> first_at(s, c) < s.len(),
    decreases s.len(),
{
    if s.len() > 0 && s[0] != c {
        let rest = s.skip(1);
        first_at_is_the_first(rest, c);
        assert forall|j: int| 0 <= j < first_at(s, c) implies s[j] != c by {
            if j > 0 {
                assert(s[j] == rest[j - 1]);
            }
        }
        if first_at(s, c) < s.len() {
            assert(s[first_at(s, c) as int] == rest[first_at(rest, c) as int]);
        }
    }
}

/// A place with nothing equal to `c` in front of it, holding `c` or at the end, is the first one.
pub proof fn lemma_first_at_unique(s: Seq<char>, c: char, at: int)
    requires
        0 <= at <= s.len(),
        forall|j: int| 0 <= j < at ==> s[j] != c,
        at < s.len() ==> s[at] == c,
    ensures
        first_at(s, c) == at,
{
    first_at_is_the_first(s, c);
    if first_at(s, c) < at {
        assert(s[first_at(s, c) as int] != c);
    }
}

/// A text splits at the first `c` into what was written in front of it and behind it.
pub proof fn splitting_undoes_joining(front: Seq<char>, c: char, back: Seq<char>)
    requires
        !front.contains(c),
    ensures
        before(front + seq![c] + back, c) == front,
        after(front + seq![c] + back, c) == Some(back),
{
    let s = front + seq![c] + back;
    assert forall|j: int| 0 <= j < front.len() implies s[j] != c by {
        assert(s[j] == front[j]);
    }
    assert(s[front.len() as int] == c);
    lemma_first_at_unique(s, c, front.len() as int);
    assert(s.take(front.len() as int) =~= front);
    assert(s.skip(front.len() as int + 1) =~= back);
}

/// A text without `c` stays in one piece.
pub proof fn nothing_splits_without_the_mark(s: Seq<char>, c: char)
    requires
        !s.contains(c),
    ensures
        first_at(s, c) == s.len(),
        before(s, c) == s,
        after(s, c) is None,
{
    first_at_is_the_first(s, c);
    assert(s.take(s.len() as int) =~= s);
}

/// Where `c` first stands in `chars`; the length if it does not occur.
pub fn find_char(chars: &Vec<char>, c: char) -> (at: usize)
    ensures
        at == first_at(chars@, c),
        at <= chars.len(),
{
    let mut at: usize = 0;
    while at < chars.len() && chars[at] != c
        invariant
            at <= chars.len(),
            forall|j: int| 0 <= j < at ==> chars@[j] != c,
        decreases chars.len() - at,
    {
        at = at + 1;
    }
    proof {
        lemma_first_at_unique(chars@, c, at as int);
    }
    at
}

/// Splits `chars` at the first `c`: what stands in front of it, and what behind it, if it occurs.
pub fn split_once(chars: &Vec<char>, c: char) -> (parts: (Vec<char>, Option<Vec<char>>))
    ensures
        parts.0@ == before(chars@, c),
        parts.1 is Some <==> after(chars@, c) is Some,
        parts.1 is Some ==> parts.1->0@ == after(chars@, c)->0,
{
    let at = find_char(chars, c);
    proof {
        first_at_is_the_first(chars@, c);
    }
    let front = slice_of(chars, 0, at);
    assert(front@ =~= before(chars@, c));
    if at < chars.len() {
        let back = slice_of(chars, at + 1, chars.len());
        assert(back@ =~= chars@.skip(at + 1));
        (front, Some(back))
    } else {
        (front, None)
    }
}

/// Whether `needle` stands in `s` at `at`.
pub open spec fn stands_at(s: Seq<char>, needle: Seq<char>, at: int) -> bool {
    0 <= at && at + needle.len() <= s.len() && s.subrange(at, at + needle.len()) == needle
}

/// Whether `needle` stands somewhere in `s`.
pub open spec fn holds_text(s: Seq<char>, needle: Seq<char>) -> bool {
    exists|at: int| stands_at(s, needle, at)
}

/// `at` is the first place where `needle` stands in `s`.
pub open spec fn first_occurrence(s: Seq<char>, needle: Seq<char>, at: int) -> bool {
    stands_at(s, needle, at) && forall|k: int| 0 <= k < at ==> !stands_at(s, needle, k)
}

/// Whether `needle` stands in `chars` at `at`.
pub fn text_stands_at(chars: &Vec<char>, needle: &Vec<char>, at: usize) -> (found: bool)
    ensures
        found == stands_at(chars@, needle@, at as int),
{
    if at > chars.len() || needle.len() > chars.len() - at {
        return false;
    }
    for i in 0..needle.len()
        invariant
            at + needle.len() <= chars.len(),
            forall|j: int| 0 <= j < i ==> chars@[at + j] == needle@[j],
    {
        if chars[at + i] != needle[i] {
            proof {
                assert(chars@.subrange(at as int, at + needle.len())[i as int] == chars@[at + i]);
            }
            return false;
        }
    }
    proof {
        assert(chars@.subrange(at as int, at + needle.len()) =~= needle@);
    }
    true
}

/// The first place where `needle` stands in `chars`.
pub fn find_text(chars: &Vec<char>, needle: &Vec<char>) -> (found: Option<usize>)
    ensures
        found is Some <==> holds_text(chars@, needle@),
        found is Some ==> first_occurrence(chars@, needle@, found->0 as int),
{
    let mut at: usize = 0;
    loop
        invariant
            at <= chars.len(),
            forall|k: int| 0 <= k < at ==> !stands_at(chars@, needle@, k),
        decreases chars.len() - at,
    {
        if text_stands_at(chars, needle, at) {
            assert(stands_at(chars@, needle@, at as int));
            return Some(at);
        }
        if at == chars.len() {
            assert forall|k: int| !stands_at(chars@, needle@, k) by {}
            return None;
        }
        at = at + 1;
    }
}

/// Whether `needle` stands somewhere in `text`.
pub fn contains_text(text: &str, needle: &str) -> (found: bool)
    ensures
        found == holds_text(text@, needle@),
{
    let chars = chars_of(text);
    let wanted = chars_of(needle);
    find_text(&chars, &wanted).is_some()
}

// ---------------------------------------------------------------------------------------------
// Ordering
// ---------------------------------------------------------------------------------------------

/// Dictionary order by character: the order of the UTF-8 encodings.
pub open spec fn text_less(a: Seq<char>, b: Seq<char>) -> bool
    decreases a.len(),
{
    if b.len() == 0 {
        false
    } else if a.len() == 0 {
        true
    } else if a[0] != b[0] {
        a[0] < b[0]
    } else {
        text_less(a.skip(1), b.skip(1))
    }
}

/// Of two different texts exactly one comes first.
pub proof fn text_order_is_total(a: Seq<char>, b: Seq<char>)
    ensures
        a == b ==> !text_less(a, b),
        a != b ==> text_less(a, b) != text_less(b, a),
    decreases a.len(),
{
    if a.len() > 0 && b.len() > 0 && a[0] == b[0] {
        text_order_is_total(a.skip(1), b.skip(1));
        if a.skip(1) == b.skip(1) {
            assert(a =~= seq![a[0]] + a.skip(1));
            assert(b =~= seq![b[0]] + b.skip(1));
        }
    } else if a.len() == 0 && b.len() == 0 {
        assert(a =~= b);
    }
}

/// The order of texts is transitive.
pub proof fn text_order_is_transitive(a: Seq<char>, b: Seq<char>, c: Seq<char>)
    requires
        text_less(a, b),
        text_less(b, c),
    ensures
        text_less(a, c),
    decreases a.len(),
{
    if a.len() > 0 && a[0] == b[0] && b[0] == c[0] {
        text_order_is_transitive(a.skip(1), b.skip(1), c.skip(1));
    }
}

/// Whether `left` comes before `right` in dictionary order.
pub fn text_before(left: &str, right: &str) -> (less: bool)
    ensures
        less == text_less(left@, right@),
{
    let a = chars_of(left);
    let b = chars_of(right);
    let mut i: usize = 0;
    proof {
        assert(a@.skip(0) =~= a@);
        assert(b@.skip(0) =~= b@);
    }
    while i < a.len() && i < b.len() && a[i] == b[i]
        invariant
            i <= a.len(),
            i <= b.len(),
            text_less(a@, b@) == text_less(a@.skip(i as int), b@.skip(i as int)),
        decreases a.len() - i,
    {
        proof {
            assert(a@.skip(i as int).skip(1) =~= a@.skip(i + 1));
            assert(b@.skip(i as int).skip(1) =~= b@.skip(i + 1));
        }
        i = i + 1;
    }
    if i >= b.len() {
        false
    } else if i >= a.len() {
        true
    } else {
        a[i] < b[i]
    }
}

/// A text that neither begins nor ends with white space is what is left of it between white space.
pub proof fn trimming_undoes_padding(front: Seq<char>, s: Seq<char>, back: Seq<char>)
    requires
        blank(front),
        blank(back),
        s.len() > 0,
        !is_space(s[0]),
        !is_space(s.last()),
    ensures
        trimmed(front + s + back) == s,
    decreases front.len() + back.len(),
{
    let all = front + s + back;
    if front.len() > 0 {
        assert(all[0] == front[0]);
        assert(is_space(front[0]));
        let fewer = front.skip(1);
        assert(blank(fewer)) by {
            assert forall|i: int| 0 <= i < fewer.len() implies is_space(#[trigger] fewer[i]) by {
                assert(fewer[i] == front[i + 1]);
            }
        }
        assert(all.skip(1) =~= fewer + s + back);
        trimming_undoes_padding(fewer, s, back);
    } else {
        assert(all =~= s + back);
        assert(all[0] == s[0]);
        assert(trim_start(all) == all);
        lemma_trim_end_undoes(s, back);
    }
}

proof fn lemma_trim_end_undoes(s: Seq<char>, back: Seq<char>)
    requires
        blank(back),
        s.len() > 0,
        !is_space(s.last()),
    ensures
        trim_end(s + back) == s,
    decreases back.len(),
{
    let all = s + back;
    if back.len() > 0 {
        assert(all.last() == back.last());
        assert(is_space(back[back.len() - 1]));
        let fewer = back.drop_last();
        assert(blank(fewer)) by {
            assert forall|i: int| 0 <= i < fewer.len() implies is_space(#[trigger] fewer[i]) by {
                assert(fewer[i] == back[i]);
            }
        }
        assert(all.drop_last() =~= s + fewer);
        lemma_trim_end_undoes(s, fewer);
    } else {
        assert(all =~= s);
    }
}

} // verus!
