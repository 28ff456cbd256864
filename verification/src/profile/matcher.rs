//! Finds the profile that fits the connected outputs.

use crate::config::{Config, OutputConfig, Profile};
use crate::text::{
    chars_of, is_space, same_text, trim_text, trimmed, trimming_undoes_padding,
};
use crate::wayland::protocols::{HeadView, OutputHead};
use vstd::prelude::*;

verus! {

// ---------------------------------------------------------------------------------------------
// Patterns
// ---------------------------------------------------------------------------------------------

/// Whether `text` fits `pattern`: `*` stands for any characters, `?` for any one character, and
/// every other character for itself.
pub open spec fn glob(pattern: Seq<char>, text: Seq<char>) -> bool
    decreases pattern.len(), text.len(),
{
    if pattern.len() == 0 {
        text.len() == 0
    } else if pattern[0] == '*' {
        glob(pattern.skip(1), text) || (text.len() > 0 && glob(pattern, text.skip(1)))
    } else {
        text.len() > 0 && (pattern[0] == '?' || pattern[0] == text[0]) && glob(
            pattern.skip(1),
            text.skip(1),
        )
    }
}

/// What a leading `*` means: some end of the text, the whole and the empty one among them, fits the
/// rest of the pattern.
pub proof fn a_star_stands_for_any_characters(pattern: Seq<char>, text: Seq<char>)
    requires
        pattern.len() > 0,
        pattern[0] == '*',
    ensures
        glob(pattern, text) <==> exists|k: int|
            0 <= k <= text.len() && glob(pattern.skip(1), #[trigger] text.skip(k)),
    decreases text.len(),
{
    let rest = pattern.skip(1);
    assert(text.skip(0) =~= text);
    if text.len() > 0 {
        let tail = text.skip(1);
        a_star_stands_for_any_characters(pattern, tail);
        if exists|k: int| 0 <= k <= tail.len() && glob(rest, #[trigger] tail.skip(k)) {
            let k = choose|k: int| 0 <= k <= tail.len() && glob(rest, #[trigger] tail.skip(k));
            assert(tail.skip(k) =~= text.skip(k + 1));
        }
        if exists|k: int| 0 <= k <= text.len() && glob(rest, #[trigger] text.skip(k)) {
            let k = choose|k: int| 0 <= k <= text.len() && glob(rest, #[trigger] text.skip(k));
            if k > 0 {
                assert(tail.skip(k - 1) =~= text.skip(k));
            }
        }
    }
}

/// The pattern `*` fits every text.
pub proof fn a_star_fits_everything(text: Seq<char>)
    ensures
        glob(seq!['*'], text),
{
    let n = text.len() as int;
    a_star_stands_for_any_characters(seq!['*'], text);
    assert(seq!['*'].skip(1) =~= Seq::empty());
    assert(glob(seq!['*'].skip(1), text.skip(n)));
}

/// A pattern without `*` and `?` fits itself and nothing else.
pub proof fn a_literal_pattern_fits_itself(pattern: Seq<char>, text: Seq<char>)
    requires
        !pattern.contains('*'),
        !pattern.contains('?'),
    ensures
        glob(pattern, text) <==> text == pattern,
    decreases pattern.len(),
{
    if pattern.len() > 0 {
        assert(pattern.contains(pattern[0]));
        let rest = pattern.skip(1);
        assert forall|c: char| rest.contains(c) implies pattern.contains(c) by {
            let k = choose|k: int| 0 <= k < rest.len() && rest[k] == c;
            assert(pattern[k + 1] == c);
        }
        if text.len() > 0 {
            a_literal_pattern_fits_itself(rest, text.skip(1));
            assert(pattern =~= seq![pattern[0]] + rest);
            if text[0] == pattern[0] && text.skip(1) == rest {
                assert(text =~= seq![text[0]] + text.skip(1));
            }
        }
    } else if text.len() == 0 {
        assert(text =~= pattern);
    }
}

/// Every pattern, read as a text, fits itself.
pub proof fn a_pattern_fits_itself(pattern: Seq<char>)
    ensures
        glob(pattern, pattern),
    decreases pattern.len(),
{
    if pattern.len() > 0 {
        a_pattern_fits_itself(pattern.skip(1));
        if pattern[0] == '*' {
            a_star_stands_for_any_characters(pattern, pattern);
        }
    }
}

/// What fits two patterns, one part after the other, fits them written one after the other.
pub proof fn patterns_fit_in_sequence(
    first: Seq<char>,
    second: Seq<char>,
    front: Seq<char>,
    back: Seq<char>,
)
    requires
        glob(first, front),
        glob(second, back),
    ensures
        glob(first + second, front + back),
    decreases first.len(),
{
    if first.len() == 0 {
        assert(first + second =~= second);
        assert(front + back =~= back);
    } else {
        let rest = first.skip(1);
        assert((first + second).skip(1) =~= rest + second);
        if first[0] == '*' {
            a_star_stands_for_any_characters(first, front);
            a_star_stands_for_any_characters(first + second, front + back);
            let k = choose|k: int| 0 <= k <= front.len() && glob(rest, #[trigger] front.skip(k));
            patterns_fit_in_sequence(rest, second, front.skip(k), back);
            assert((front + back).skip(k) =~= front.skip(k) + back);
        } else {
            patterns_fit_in_sequence(rest, second, front.skip(1), back);
            assert((front + back).skip(1) =~= front.skip(1) + back);
        }
    }
}

/// A pattern without `*` fits only texts of its own length.
pub proof fn a_pattern_without_stars_fixes_the_length(pattern: Seq<char>, text: Seq<char>)
    requires
        !pattern.contains('*'),
        glob(pattern, text),
    ensures
        text.len() == pattern.len(),
    decreases pattern.len(),
{
    if pattern.len() > 0 {
        assert(pattern.contains(pattern[0]));
        let rest = pattern.skip(1);
        assert forall|c: char| rest.contains(c) implies pattern.contains(c) by {
            let k = choose|k: int| 0 <= k < rest.len() && rest[k] == c;
            assert(pattern[k + 1] == c);
        }
        a_pattern_without_stars_fixes_the_length(rest, text.skip(1));
    }
}

/// Whether `text` fits `pattern`.
pub fn glob_match(pattern: &str, text: &str) -> (fits: bool)
    ensures
        fits == glob(pattern@, text@),
{
    let pattern_chars = chars_of(pattern);
    let text_chars = chars_of(text);
    assert(pattern_chars@.skip(0) =~= pattern@);
    assert(text_chars@.skip(0) =~= text@);
    glob_match_from(&pattern_chars, 0, &text_chars, 0)
}

/// Whether the text from `t` on fits the pattern from `p` on.
fn glob_match_from(pattern: &Vec<char>, p: usize, text: &Vec<char>, t: usize) -> (fits: bool)
    requires
        p <= pattern.len(),
        t <= text.len(),
    ensures
        fits == glob(pattern@.skip(p as int), text@.skip(t as int)),
    decreases pattern.len() - p, text.len() - t,
{
    let ghost pat = pattern@.skip(p as int);
    let ghost txt = text@.skip(t as int);
    if p == pattern.len() {
        return t == text.len();
    }
    assert(pat[0] == pattern@[p as int]);
    assert(pat.skip(1) =~= pattern@.skip(p + 1));
    if t < text.len() {
        assert(txt[0] == text@[t as int]);
        assert(txt.skip(1) =~= text@.skip(t + 1));
    }
    let c = pattern[p];
    if c == '*' {
        if glob_match_from(pattern, p + 1, text, t) {
            return true;
        }
        t < text.len() && glob_match_from(pattern, p, text, t + 1)
    } else {
        t < text.len() && (c == '?' || c == text[t]) && glob_match_from(
            pattern,
            p + 1,
            text,
            t + 1,
        )
    }
}

// ---------------------------------------------------------------------------------------------
// Outputs
// ---------------------------------------------------------------------------------------------

/// Make, model and serial number of an output in one line.
pub open spec fn identification(head: HeadView) -> Seq<char> {
    trimmed(head.make + seq![' '] + head.model + seq![' '] + head.serial_number)
}

/// Whether a selector fits an output: by its name, or by its identification.
pub open spec fn selects(selector: Seq<char>, head: HeadView) -> bool {
    glob(selector, head.name) || glob(selector, identification(head))
}

/// The selector `*` fits every output.
pub proof fn a_star_selects_every_output(head: HeadView)
    ensures
        selects(seq!['*'], head),
{
    a_star_fits_everything(head.name);
}

/// Whether the settings of an output are meant for this one.
pub fn output_matches_head(output: &OutputConfig, head: &OutputHead) -> (fits: bool)
    ensures
        fits == selects(output.name@, head@),
{
    if same_text(output.name.as_str(), "*") {
        proof {
            reveal_strlit("*");
            assert(output.name@ =~= seq!['*']);
            a_star_selects_every_output(head@);
        }
        return true;
    }
    if glob_match(output.name.as_str(), head.name.as_str()) {
        return true;
    }
    let mut line = head.make.clone();
    line.push(' ');
    line.append(head.model.as_str());
    line.push(' ');
    line.append(head.serial_number.as_str());
    assert(line@ =~= head@.make + seq![' '] + head@.model + seq![' '] + head@.serial_number);
    let identifier = trim_text(line.as_str());
    glob_match(output.name.as_str(), identifier.as_str())
}

/// The outputs as mathematical values.
pub open spec fn head_views(heads: Seq<&OutputHead>) -> Seq<HeadView> {
    Seq::new(heads.len(), |i: int| heads[i]@)
}

/// The first output from `from` on that is not taken and that the selector fits.
pub open spec fn first_free(
    selector: Seq<char>,
    heads: Seq<HeadView>,
    taken: Seq<int>,
    from: int,
) -> Option<int>
    decreases heads.len() - from,
{
    if from < 0 || from >= heads.len() {
        None
    } else if !taken.contains(from) && selects(selector, heads[from]) {
        Some(from)
    } else {
        first_free(selector, heads, taken, from + 1)
    }
}

/// The outputs that the first `n` settings are for: each takes the first free one that it fits.
pub open spec fn choices(outputs: Seq<OutputConfig>, heads: Seq<HeadView>, n: nat) -> Option<
    Seq<int>,
>
    decreases n,
{
    if n == 0 {
        Some(Seq::empty())
    } else {
        match choices(outputs, heads, (n - 1) as nat) {
            Some(taken) => match first_free(outputs[n - 1].name@, heads, taken, 0) {
                Some(head) => Some(taken.push(head)),
                None => None,
            },
            None => None,
        }
    }
}

/// The outputs that the settings of a profile are for, one for each; none if the profile does not
/// fit the connected outputs.
pub open spec fn resolution(profile: Profile, heads: Seq<HeadView>) -> Option<Seq<int>> {
    if profile.outputs@.len() != heads.len() {
        None
    } else {
        choices(profile.outputs@, heads, profile.outputs@.len())
    }
}

proof fn lemma_first_free(selector: Seq<char>, heads: Seq<HeadView>, taken: Seq<int>, from: int)
    requires
        from >= 0,
    ensures
        first_free(selector, heads, taken, from) matches Some(head) ==> {
            &&& from <= head < heads.len()
            &&& !taken.contains(head)
            &&& selects(selector, heads[head])
            &&& forall|j: int|
                from <= j < head && !taken.contains(j) ==> !selects(selector, #[trigger] heads[j])
        },
        first_free(selector, heads, taken, from) is None ==> forall|j: int|
            from <= j < heads.len() && !taken.contains(j) ==> !selects(
                selector,
                #[trigger] heads[j],
            ),
    decreases heads.len() - from,
{
    if from < heads.len() && !(!taken.contains(from) && selects(selector, heads[from])) {
        lemma_first_free(selector, heads, taken, from + 1);
    }
}

proof fn lemma_choices(outputs: Seq<OutputConfig>, heads: Seq<HeadView>, n: nat)
    requires
        n <= outputs.len(),
    ensures
        choices(outputs, heads, n) matches Some(chosen) ==> {
            &&& chosen.len() == n
            &&& chosen.no_duplicates()
            &&& forall|i: int|
                0 <= i < n ==> 0 <= #[trigger] chosen[i] < heads.len() && selects(
                    outputs[i].name@,
                    heads[chosen[i]],
                )
            &&& forall|i: int, j: int|
                #![trigger chosen[i], heads[j]]
                0 <= i < n && 0 <= j < chosen[i] && !chosen.take(i).contains(j) ==> !selects(
                    outputs[i].name@,
                    heads[j],
                )
        },
    decreases n,
{
    if n > 0 {
        lemma_choices(outputs, heads, (n - 1) as nat);
        if let Some(taken) = choices(outputs, heads, (n - 1) as nat) {
            lemma_first_free(outputs[n - 1].name@, heads, taken, 0);
            if let Some(head) = first_free(outputs[n - 1].name@, heads, taken, 0) {
                let chosen = taken.push(head);
                assert forall|i: int, j: int|
                    #![trigger chosen[i], heads[j]]
                    0 <= i < n && 0 <= j < chosen[i] && !chosen.take(i).contains(
                        j,
                    ) implies !selects(outputs[i].name@, heads[j]) by {
                    assert(chosen.take(i) =~= taken.take(i));
                    if i < n - 1 {
                        assert(chosen[i] == taken[i]);
                    } else {
                        assert(taken.take(i) =~= taken);
                    }
                }
            }
        }
    }
}

/// A profile that fits gives every one of its settings an output of its own, which the selector
/// fits and which is the first such output that earlier settings left over; and no connected output
/// goes without settings.
pub proof fn a_resolution_pairs_outputs(profile: Profile, heads: Seq<HeadView>)
    ensures
        resolution(profile, heads) matches Some(chosen) ==> {
            &&& chosen.len() == profile.outputs@.len() == heads.len()
            &&& chosen.no_duplicates()
            &&& forall|i: int|
                0 <= i < chosen.len() ==> 0 <= #[trigger] chosen[i] < heads.len() && selects(
                    profile.outputs@[i].name@,
                    heads[chosen[i]],
                )
            &&& forall|i: int, j: int|
                #![trigger chosen[i], heads[j]]
                0 <= i < chosen.len() && 0 <= j < chosen[i] && !chosen.take(i).contains(j)
                    ==> !selects(profile.outputs@[i].name@, heads[j])
            &&& forall|j: int| 0 <= j < heads.len() ==> #[trigger] chosen.contains(j)
        },
{
    lemma_choices(profile.outputs@, heads, profile.outputs@.len());
    if let Some(chosen) = resolution(profile, heads) {
        let used = chosen.to_set();
        let all = vstd::set_lib::set_int_range(0, heads.len() as int);
        chosen.unique_seq_to_set();
        vstd::set_lib::lemma_int_range(0, heads.len() as int);
        assert(used.subset_of(all)) by {
            assert forall|j: int| used.contains(j) implies all.contains(j) by {
                let i = choose|i: int| 0 <= i < chosen.len() && chosen[i] == j;
                assert(0 <= chosen[i] < heads.len());
            }
        }
        vstd::set_lib::lemma_subset_equality(used, all);
        assert forall|j: int| 0 <= j < heads.len() implies #[trigger] chosen.contains(j) by {
            assert(all.contains(j));
            assert(used.contains(j));
        }
    }
}

/// Gives every configured output one distinct connected output, by name; none if the profile does
/// not fit.
pub fn resolve_profile_outputs<'a>(profile: &'a Profile, heads: &[&OutputHead]) -> (resolved: Option<
    Vec<(&'a OutputConfig, String)>,
>)
    ensures
        resolved is Some <==> resolution(*profile, head_views(heads@)) is Some,
        resolved is Some ==> {
            let chosen = resolution(*profile, head_views(heads@))->0;
            &&& resolved->0@.len() == chosen.len() == profile.outputs@.len()
            &&& forall|i: int|
                0 <= i < chosen.len() ==> *(#[trigger] resolved->0@[i]).0 == profile.outputs@[i]
                    && resolved->0@[i].1@ == heads@[chosen[i]].name@
        },
{
    let ghost views = head_views(heads@);
    let ghost all = profile.outputs@;
    if profile.outputs.len() != heads.len() {
        return None;
    }
    let mut taken: Vec<usize> = Vec::new();
    let mut resolved: Vec<(&'a OutputConfig, String)> = Vec::new();
    let ghost mut chosen: Seq<int> = Seq::empty();
    for n in 0..profile.outputs.len()
        invariant
            views == head_views(heads@),
            all == profile.outputs@,
            all.len() == heads@.len(),
            choices(all, views, n as nat) == Some(chosen),
            chosen.len() == n,
            taken@.len() == n,
            forall|i: int| 0 <= i < n ==> #[trigger] taken@[i] == chosen[i],
            resolved@.len() == n,
            forall|i: int|
                0 <= i < n ==> *(#[trigger] resolved@[i]).0 == all[i] && resolved@[i].1@
                    == heads@[chosen[i]].name@,
    {
        let output = &profile.outputs[n];
        let mut at: usize = 0;
        let mut found = false;
        while at < heads.len() && !found
            invariant
                at <= heads@.len(),
                views == head_views(heads@),
                chosen.len() == n,
                taken@.len() == n,
                forall|i: int| 0 <= i < n ==> #[trigger] taken@[i] == chosen[i],
                first_free(output.name@, views, chosen, 0) == first_free(
                    output.name@,
                    views,
                    chosen,
                    at as int,
                ),
                found ==> at < heads@.len() && !chosen.contains(at as int) && selects(
                    output.name@,
                    views[at as int],
                ),
            decreases heads@.len() - at + if found {
                0int
            } else {
                1
            },
        {
            let free = !contains_index(&taken, at);
            proof {
                assert(free == !chosen.contains(at as int)) by {
                    if taken@.contains(at) {
                        let i = choose|i: int| 0 <= i < taken@.len() && taken@[i] == at;
                        assert(chosen[i] == at);
                    }
                    if chosen.contains(at as int) {
                        let i = choose|i: int| 0 <= i < chosen.len() && chosen[i] == at;
                        assert(taken@[i] == at);
                    }
                }
            }
            if free && output_matches_head(output, heads[at]) {
                found = true;
            } else {
                at = at + 1;
            }
        }
        if !found {
            proof {
                lemma_choices_stop(all, views, (n + 1) as nat, all.len());
            }
            return None;
        }
        assert(first_free(output.name@, views, chosen, 0) == Some(at as int));
        taken.push(at);
        resolved.push((output, heads[at].name.clone()));
        proof {
            chosen = chosen.push(at as int);
        }
    }
    Some(resolved)
}

proof fn lemma_choices_stop(outputs: Seq<OutputConfig>, heads: Seq<HeadView>, n: nat, m: nat)
    requires
        n <= m,
        choices(outputs, heads, n) is None,
    ensures
        choices(outputs, heads, m) is None,
    decreases m,
{
    if n < m {
        lemma_choices_stop(outputs, heads, n, (m - 1) as nat);
    }
}

fn contains_index(list: &Vec<usize>, index: usize) -> (found: bool)
    ensures
        found == list@.contains(index),
{
    for i in 0..list.len()
        invariant
            forall|j: int| 0 <= j < i ==> list@[j] != index,
    {
        if list[i] == index {
            return true;
        }
    }
    false
}

// ---------------------------------------------------------------------------------------------
// Profiles
// ---------------------------------------------------------------------------------------------

/// The first profile from `from` on that fits the connected outputs.
pub open spec fn best_match(profiles: Seq<Profile>, heads: Seq<HeadView>, from: int) -> Option<int>
    decreases profiles.len() - from,
{
    if from < 0 || from >= profiles.len() {
        None
    } else if resolution(profiles[from], heads) is Some {
        Some(from)
    } else {
        best_match(profiles, heads, from + 1)
    }
}

/// The chosen profile fits and no earlier one does; none is chosen only if none fits.
pub proof fn the_first_fitting_profile_is_best(profiles: Seq<Profile>, heads: Seq<HeadView>)
    ensures
        best_match(profiles, heads, 0) matches Some(best) ==> {
            &&& 0 <= best < profiles.len()
            &&& resolution(profiles[best], heads) is Some
            &&& forall|i: int| 0 <= i < best ==> resolution(#[trigger] profiles[i], heads) is None
        },
        best_match(profiles, heads, 0) is None ==> forall|i: int|
            0 <= i < profiles.len() ==> resolution(#[trigger] profiles[i], heads) is None,
{
    lemma_best_match(profiles, heads, 0);
}

proof fn lemma_best_match(profiles: Seq<Profile>, heads: Seq<HeadView>, from: int)
    requires
        0 <= from,
    ensures
        best_match(profiles, heads, from) matches Some(best) ==> {
            &&& from <= best < profiles.len()
            &&& resolution(profiles[best], heads) is Some
            &&& forall|i: int|
                from <= i < best ==> resolution(#[trigger] profiles[i], heads) is None
        },
        best_match(profiles, heads, from) is None ==> forall|i: int|
            from <= i < profiles.len() ==> resolution(#[trigger] profiles[i], heads) is None,
    decreases profiles.len() - from,
{
    if from < profiles.len() && resolution(profiles[from], heads) is None {
        lemma_best_match(profiles, heads, from + 1);
    }
}

/// Chooses profiles for connected outputs.
pub struct ProfileMatcher {}

impl Default for ProfileMatcher {
    /// A matcher.
    fn default() -> (matcher: ProfileMatcher) {
        ProfileMatcher::new()
    }
}

impl ProfileMatcher {
    /// A matcher.
    pub fn new() -> (matcher: ProfileMatcher) {
        ProfileMatcher {  }
    }

    /// The first profile that fits the connected outputs.
    pub fn find_best_match<'a>(&self, config: &'a Config, heads: Vec<&OutputHead>) -> (best: Option<
        &'a Profile,
    >)
        ensures
            match best_match(config.profiles@, head_views(heads@), 0) {
                Some(i) => best == Some(&config.profiles@[i]),
                None => best is None,
            },
    {
        match self.find_best_index(config, heads) {
            Some(i) => Some(&config.profiles[i]),
            None => None,
        }
    }

    /// The place of the first profile that fits the connected outputs.
    pub fn find_best_index(&self, config: &Config, heads: Vec<&OutputHead>) -> (best: Option<usize>)
        ensures
            match best_match(config.profiles@, head_views(heads@), 0) {
                Some(i) => best is Some && best->0 == i && i < config.profiles@.len(),
                None => best is None,
            },
    {
        for i in 0..config.profiles.len()
            invariant
                best_match(config.profiles@, head_views(heads@), 0) == best_match(
                    config.profiles@,
                    head_views(heads@),
                    i as int,
                ),
        {
            if self.profile_matches(&config.profiles[i], heads.as_slice()) {
                return Some(i);
            }
        }
        None
    }

    /// Whether a profile fits the connected outputs.
    pub fn profile_matches(&self, profile: &Profile, heads: &[&OutputHead]) -> (fits: bool)
        ensures
            fits == (resolution(*profile, head_views(heads@)) is Some),
    {
        resolve_profile_outputs(profile, heads).is_some()
    }

    /// Whether the settings of an output are meant for this one.
    pub fn output_matches_head(&self, output: &OutputConfig, head: &OutputHead) -> (fits: bool)
        ensures
            fits == selects(output.name@, head@),
    {
        output_matches_head(output, head)
    }

    /// Whether `text` fits `pattern`.
    pub fn glob_match(&self, pattern: &str, text: &str) -> (fits: bool)
        ensures
            fits == glob(pattern@, text@),
    {
        glob_match(pattern, text)
    }
}

/// A `?` stands for any one character, and never for none.
pub proof fn a_question_mark_stands_for_one_character(pattern: Seq<char>, text: Seq<char>)
    requires
        pattern.len() > 0,
        pattern[0] == '?',
    ensures
        glob(pattern, text) <==> text.len() > 0 && glob(pattern.skip(1), text.skip(1)),
{
}

/// Without `*` and `?`, a selector fits exactly the output of that name and the outputs whose make, model
/// and serial number, with blanks between them, it spells out.
pub proof fn an_output_is_selected_by_name_or_identification(selector: Seq<char>, head: HeadView)
    requires
        !selector.contains('*'),
        !selector.contains('?'),
        head.make.len() > 0,
        !is_space(head.make[0]),
        head.serial_number.len() > 0,
        !is_space(head.serial_number.last()),
    ensures
        selects(selector, head) <==> selector == head.name || selector == head.make + " "@
            + head.model + " "@ + head.serial_number,
{
    reveal_strlit(" ");
    let line = head.make + seq![' '] + head.model + seq![' '] + head.serial_number;
    assert(" "@ =~= seq![' ']);
    assert(line[0] == head.make[0]);
    assert(line.last() == head.serial_number.last());
    trimming_undoes_padding(Seq::empty(), line, Seq::empty());
    assert(Seq::<char>::empty() + line + Seq::<char>::empty() =~= line);
    a_literal_pattern_fits_itself(selector, head.name);
    a_literal_pattern_fits_itself(selector, line);
}

proof fn lemma_first_free_is(
    selector: Seq<char>,
    heads: Seq<HeadView>,
    taken: Seq<int>,
    from: int,
    only: int,
)
    requires
        0 <= from <= only < heads.len(),
        !taken.contains(only),
        forall|j: int| 0 <= j < heads.len() ==> (selects(selector, #[trigger] heads[j]) <==> j == only),
    ensures
        first_free(selector, heads, taken, from) == Some(only),
    decreases only - from,
{
    assert(selects(selector, heads[from]) <==> from == only);
    if from < only {
        lemma_first_free_is(selector, heads, taken, from + 1, only);
    }
}

proof fn lemma_choices_are(
    outputs: Seq<OutputConfig>,
    heads: Seq<HeadView>,
    only: Seq<int>,
    n: nat,
)
    requires
        n <= outputs.len() == only.len(),
        only.no_duplicates(),
        forall|i: int| 0 <= i < only.len() ==> 0 <= #[trigger] only[i] < heads.len(),
        forall|i: int, j: int|
            #![trigger only[i], heads[j]]
            0 <= i < only.len() && 0 <= j < heads.len() ==> (selects(outputs[i].name@, heads[j])
                <==> j == only[i]),
    ensures
        choices(outputs, heads, n) == Some(only.take(n as int)),
    decreases n,
{
    if n == 0 {
        assert(only.take(0) =~= Seq::empty());
    } else {
        let k = n - 1;
        lemma_choices_are(outputs, heads, only, k as nat);
        let taken = only.take(k);
        let head = only[k];
        assert(!taken.contains(head)) by {
            if taken.contains(head) {
                let j = choose|j: int| 0 <= j < taken.len() && taken[j] == head;
                assert(only[j] == only[k]);
            }
        }
        assert forall|j: int| 0 <= j < heads.len() implies (selects(
            outputs[k].name@,
            #[trigger] heads[j],
        ) <==> j == head) by {
            assert(only[k] == head);
        }
        lemma_first_free_is(outputs[k].name@, heads, taken, 0, head);
        assert(taken.push(head) =~= only.take(n as int));
    }
}

/// A profile fits if it has settings for as many outputs as are connected and each selector fits one
/// output of its own and no other; each setting is then for the output that its selector fits.
pub proof fn a_profile_of_distinct_outputs_fits(
    profile: Profile,
    heads: Seq<HeadView>,
    only: Seq<int>,
)
    requires
        profile.outputs@.len() == heads.len() == only.len(),
        only.no_duplicates(),
        forall|i: int| 0 <= i < only.len() ==> 0 <= #[trigger] only[i] < heads.len(),
        forall|i: int, j: int|
            #![trigger only[i], heads[j]]
            0 <= i < only.len() && 0 <= j < heads.len() ==> (selects(
                profile.outputs@[i].name@,
                heads[j],
            ) <==> j == only[i]),
    ensures
        resolution(profile, heads) == Some(only),
{
    lemma_choices_are(profile.outputs@, heads, only, only.len());
    assert(only.take(only.len() as int) =~= only);
}

} // verus!
