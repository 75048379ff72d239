use crate::pattern::{ends_without_slash, segments_ok, starts_with_slash, well_formed, Piece};
use crate::pattern::{compiled, lemma_compiled_well_formed, lemma_run_len_bound, run_len};
use vstd::prelude::*;

verus! {

/// No character of `s` is `/`.
pub open spec fn no_slash(s: Seq<char>) -> bool {
    forall|i: int| 0 <= i < s.len() ==> #[trigger] s[i] != '/'
}

/// What a placeholder can stand for: one or more characters, none of them `/`.
pub open spec fn valid_value(v: Seq<char>) -> bool {
    v.len() > 0 && no_slash(v)
}

/// The number of placeholders among the segments.
pub open spec fn capture_count(p: Seq<Piece>) -> nat
    decreases p.len(),
{
    if p.len() == 0 {
        0
    } else {
        (if p[0] is Capture { 1nat } else { 0nat }) + capture_count(p.drop_first())
    }
}

/// The path that the segments spell when the placeholders, in order, stand for `values`.
pub open spec fn instantiate(p: Seq<Piece>, values: Seq<Seq<char>>) -> Seq<char>
    decreases p.len(),
{
    if p.len() == 0 {
        Seq::empty()
    } else {
        match p[0] {
            Piece::Literal(text) => text + instantiate(p.drop_first(), values),
            Piece::Capture(_) => values[0] + instantiate(p.drop_first(), values.drop_first()),
        }
    }
}

/// Adds `by` to a position that was found.
pub open spec fn shifted(found: Option<nat>, by: nat) -> Option<nat> {
    match found {
        Some(k) => Some(k + by),
        None => None,
    }
}

/// The position, among the placeholders of the segments, of the first one named `name`.
pub open spec fn slot_of(p: Seq<Piece>, name: Seq<char>) -> Option<nat>
    decreases p.len(),
{
    if p.len() == 0 {
        None
    } else {
        match p[0] {
            Piece::Capture(n) => if n == name {
                Some(0)
            } else {
                shifted(slot_of(p.drop_first(), name), 1)
            },
            Piece::Literal(_) => slot_of(p.drop_first(), name),
        }
    }
}

/// A position that `slot_of` gives is that of a placeholder.
pub proof fn lemma_slot_in_range(p: Seq<Piece>, name: Seq<char>)
    requires
        slot_of(p, name) is Some,
    ensures
        slot_of(p, name)->Some_0 < capture_count(p),
    decreases p.len(),
{
    if p.len() > 0 {
        if !(p[0] matches Piece::Capture(n) && n == name) {
            lemma_slot_in_range(p.drop_first(), name);
        }
    }
}

/// `values` fill the placeholders of `p`, one each.
pub open spec fn values_fit(p: Seq<Piece>, values: Seq<Seq<char>>) -> bool {
    &&& values.len() == capture_count(p)
    &&& forall|k: int| 0 <= k < values.len() ==> valid_value(#[trigger] values[k])
}

/// Puts `value` before the values of a match that succeeded.
pub open spec fn with_first(value: Seq<char>, rest: Option<Seq<Seq<char>>>) -> Option<
    Seq<Seq<char>>,
> {
    match rest {
        Some(values) => Some(seq![value] + values),
        None => None,
    }
}

/// Matches all of `input` against the segments, from the left: a literal must
/// stand as it is, a placeholder takes every character up to the next `/`, and
/// takes at least one. Gives the text of each placeholder, in order.
pub open spec fn match_path(p: Seq<Piece>, input: Seq<char>) -> Option<Seq<Seq<char>>>
    decreases p.len(),
{
    if p.len() == 0 {
        if input.len() == 0 {
            Some(Seq::empty())
        } else {
            None
        }
    } else {
        match p[0] {
            Piece::Literal(text) => if text.is_prefix_of(input) {
                match_path(p.drop_first(), input.skip(text.len() as int))
            } else {
                None
            },
            Piece::Capture(_) => {
                let n = run_len(input, 0, '/');
                if n == 0 {
                    None
                } else {
                    with_first(input.take(n as int), match_path(p.drop_first(), input.skip(n as int)))
                }
            },
        }
    }
}

/// What a match gives fills the placeholders and spells the input.
pub proof fn lemma_match_spells_input(p: Seq<Piece>, input: Seq<char>)
    requires
        match_path(p, input) is Some,
    ensures
        values_fit(p, match_path(p, input)->Some_0),
        instantiate(p, match_path(p, input)->Some_0) == input,
    decreases p.len(),
{
    if p.len() > 0 {
        let tail = p.drop_first();
        match p[0] {
            Piece::Literal(text) => {
                let rest = input.skip(text.len() as int);
                lemma_match_spells_input(tail, rest);
                assert(text + rest =~= input);
            },
            Piece::Capture(_) => {
                let n = run_len(input, 0, '/');
                lemma_run_len_bound(input, 0, '/');
                let rest = input.skip(n as int);
                let head = input.take(n as int);
                lemma_match_spells_input(tail, rest);
                let later = match_path(tail, rest)->Some_0;
                let values = seq![head] + later;
                assert(values.drop_first() =~= later);
                assert(head + rest =~= input);
                assert forall|k: int| 0 <= k < values.len() implies valid_value(
                    #[trigger] values[k],
                ) by {
                    if k > 0 {
                        assert(values[k] == later[k - 1]);
                    }
                }
            },
        }
    } else {
        assert(input =~= Seq::<char>::empty());
    }
}

/// A run that holds no `stop` and ends at one, or at the end, has that length.
pub proof fn lemma_run_len_is(t: Seq<char>, from: int, stop: char, end: int)
    requires
        0 <= from <= end <= t.len(),
        forall|k: int| from <= k < end ==> t[k] != stop,
        end < t.len() ==> t[end] == stop,
    ensures
        run_len(t, from, stop) == end - from,
    decreases end - from,
{
    if from < end {
        lemma_run_len_is(t, from + 1, stop, end);
    }
}

proof fn lemma_tail_ok(p: Seq<Piece>)
    requires
        p.len() > 0,
        segments_ok(p),
    ensures
        segments_ok(p.drop_first()),
{
    let tail = p.drop_first();
    assert forall|k: int| 0 <= k < tail.len() implies match #[trigger] tail[k] {
        Piece::Literal(text) => text.len() > 0,
        Piece::Capture(name) => crate::identifier::is_identifier(name) && (k + 1 < tail.len()
            ==> starts_with_slash(tail[k + 1])),
    } by {
        assert(tail[k] == p[k + 1]);
        if k + 1 < tail.len() {
            assert(tail[k + 1] == p[k + 2]);
        }
    }
}

/// A path spelled from the segments of a compiled template matches them, and the
/// match gives back the values that were put in.
pub proof fn lemma_spelled_path_matches(p: Seq<Piece>, values: Seq<Seq<char>>)
    requires
        segments_ok(p),
        values_fit(p, values),
    ensures
        match_path(p, instantiate(p, values)) == Some(values),
    decreases p.len(),
{
    if p.len() == 0 {
        assert(values =~= Seq::<Seq<char>>::empty());
    } else {
        let tail = p.drop_first();
        lemma_tail_ok(p);
        match p[0] {
            Piece::Literal(text) => {
                let rest = instantiate(tail, values);
                lemma_spelled_path_matches(tail, values);
                assert((text + rest).skip(text.len() as int) =~= rest);
            },
            Piece::Capture(_) => {
                let first = values[0];
                let later = values.drop_first();
                let rest = instantiate(tail, later);
                let input = first + rest;
                assert(valid_value(first));
                assert forall|k: int| 0 <= k < later.len() implies valid_value(
                    #[trigger] later[k],
                ) by {
                    assert(later[k] == values[k + 1]);
                }
                lemma_spelled_path_matches(tail, later);
                if tail.len() > 0 {
                    assert(starts_with_slash(p[1]));
                    assert(tail[0] == p[1]);
                    assert(rest.len() > 0 && rest[0] == '/');
                } else {
                    assert(rest.len() == 0);
                }
                assert forall|k: int| 0 <= k < first.len() implies input[k] != '/' by {
                    assert(input[k] == first[k]);
                }
                lemma_run_len_is(input, 0, '/', first.len() as int);
                assert(input.take(first.len() as int) =~= first);
                assert(input.skip(first.len() as int) =~= rest);
                assert(seq![first] + later =~= values);
            },
        }
    }
}

/// For every template that compiles: the path that its segments spell with any
/// values, none empty and none with a `/`, matches, and the match gives those values.
pub proof fn lemma_template_matches_own_paths(t: Seq<char>, values: Seq<Seq<char>>)
    requires
        compiled(t) is Ok,
        values_fit(compiled(t)->Ok_0, values),
    ensures
        match_path(compiled(t)->Ok_0, instantiate(compiled(t)->Ok_0, values)) == Some(values),
{
    lemma_compiled_well_formed(t);
    lemma_spelled_path_matches(compiled(t)->Ok_0, values);
}

proof fn lemma_spelled_path_end(p: Seq<Piece>, values: Seq<Seq<char>>)
    requires
        p.len() > 0,
        ends_without_slash(p.last()),
        values_fit(p, values),
    ensures
        instantiate(p, values).len() > 0,
        instantiate(p, values).last() != '/',
    decreases p.len(),
{
    let tail = p.drop_first();
    let later = if p[0] is Capture { values.drop_first() } else { values };
    if p[0] is Capture {
        assert(valid_value(values[0]));
        assert forall|k: int| 0 <= k < later.len() implies valid_value(#[trigger] later[k]) by {
            assert(later[k] == values[k + 1]);
        }
    }
    if tail.len() > 0 {
        assert(tail.last() == p.last());
        lemma_spelled_path_end(tail, later);
    } else {
        assert(instantiate(tail, later).len() == 0);
        match p[0] {
            Piece::Literal(text) => {
                assert(instantiate(p, values) =~= text);
            },
            Piece::Capture(_) => {
                assert(instantiate(p, values) =~= values[0]);
            },
        }
    }
}

/// No path that ends in `/` matches a compiled template.
pub proof fn lemma_trailing_slash_never_matches(p: Seq<Piece>, input: Seq<char>)
    requires
        well_formed(p),
    ensures
        match_path(p, input.push('/')) is None,
{
    let path = input.push('/');
    if match_path(p, path) is Some {
        lemma_match_spells_input(p, path);
        lemma_spelled_path_end(p, match_path(p, path)->Some_0);
        assert(path.last() == '/');
    }
}

} // verus!
