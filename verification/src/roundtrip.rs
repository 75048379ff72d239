use crate::decode::{field_fails, field_value, path_values, Fault};
use crate::matching::{
    capture_count, instantiate, lemma_spelled_path_matches, match_path, slot_of, valid_value,
    values_fit,
};
use crate::pattern::Piece;
use crate::route::{
    capture_text, field_named, path_of, route_ok, spelled, PathFieldModel, RouteModel,
};
use crate::value::{converted, shown, Datum};
use vstd::prelude::*;

verus! {

/// The texts that a record writes at the placeholders among the first `upto`
/// segments, in order.
pub open spec fn texts_upto(route: RouteModel, values: Seq<Datum>, upto: int) -> Option<
    Seq<Seq<char>>,
>
    decreases upto,
{
    if upto <= 0 {
        Some(Seq::empty())
    } else {
        match texts_upto(route, values, upto - 1) {
            None => None,
            Some(front) => match route.pieces[upto - 1] {
                Piece::Literal(_) => Some(front),
                Piece::Capture(name) => match capture_text(route, values, name) {
                    Some(text) => Some(front.push(text)),
                    None => None,
                },
            },
        }
    }
}

proof fn lemma_count_push(p: Seq<Piece>, x: Piece)
    ensures
        capture_count(p.push(x)) == capture_count(p) + (if x is Capture { 1nat } else { 0nat }),
    decreases p.len(),
{
    let q = p.push(x);
    if p.len() == 0 {
        assert(q.drop_first() =~= Seq::<Piece>::empty());
        assert(capture_count(q.drop_first()) == 0);
    } else {
        assert(q.drop_first() =~= p.drop_first().push(x));
        lemma_count_push(p.drop_first(), x);
    }
}

proof fn lemma_instantiate_push_literal(p: Seq<Piece>, texts: Seq<Seq<char>>, text: Seq<char>)
    requires
        texts.len() == capture_count(p),
    ensures
        instantiate(p.push(Piece::Literal(text)), texts) == instantiate(p, texts) + text,
    decreases p.len(),
{
    let x = Piece::Literal(text);
    let q = p.push(x);
    if p.len() == 0 {
        assert(q.drop_first() =~= Seq::<Piece>::empty());
        assert(instantiate(q.drop_first(), texts) =~= Seq::<char>::empty());
        assert(instantiate(q, texts) =~= text);
        assert(instantiate(p, texts) + text =~= text);
    } else {
        assert(q.drop_first() =~= p.drop_first().push(x));
        match p[0] {
            Piece::Literal(head) => {
                lemma_instantiate_push_literal(p.drop_first(), texts, text);
                assert(head + (instantiate(p.drop_first(), texts) + text) =~= (head + instantiate(
                    p.drop_first(),
                    texts,
                )) + text);
            },
            Piece::Capture(_) => {
                lemma_instantiate_push_literal(p.drop_first(), texts.drop_first(), text);
                assert(texts[0] + (instantiate(p.drop_first(), texts.drop_first()) + text) =~= (
                texts[0] + instantiate(p.drop_first(), texts.drop_first())) + text);
            },
        }
    }
}

proof fn lemma_instantiate_push_capture(
    p: Seq<Piece>,
    texts: Seq<Seq<char>>,
    name: Seq<char>,
    text: Seq<char>,
)
    requires
        texts.len() == capture_count(p),
    ensures
        instantiate(p.push(Piece::Capture(name)), texts.push(text)) == instantiate(p, texts) + text,
    decreases p.len(),
{
    let x = Piece::Capture(name);
    let q = p.push(x);
    let longer = texts.push(text);
    if p.len() == 0 {
        assert(q.drop_first() =~= Seq::<Piece>::empty());
        assert(instantiate(q.drop_first(), longer.drop_first()) =~= Seq::<char>::empty());
        assert(instantiate(q, longer) =~= text);
        assert(instantiate(p, texts) + text =~= text);
    } else {
        assert(q.drop_first() =~= p.drop_first().push(x));
        match p[0] {
            Piece::Literal(head) => {
                lemma_instantiate_push_capture(p.drop_first(), texts, name, text);
                assert(head + (instantiate(p.drop_first(), texts) + text) =~= (head + instantiate(
                    p.drop_first(),
                    texts,
                )) + text);
            },
            Piece::Capture(_) => {
                assert(longer.drop_first() =~= texts.drop_first().push(text));
                assert(longer[0] == texts[0]);
                lemma_instantiate_push_capture(p.drop_first(), texts.drop_first(), name, text);
                assert(texts[0] + (instantiate(p.drop_first(), texts.drop_first()) + text) =~= (
                texts[0] + instantiate(p.drop_first(), texts.drop_first())) + text);
            },
        }
    }
}

proof fn lemma_spelled_is_instantiated(route: RouteModel, values: Seq<Datum>, k: int)
    requires
        0 <= k <= route.pieces.len(),
    ensures
        spelled(route, values, k) is Some <==> texts_upto(route, values, k) is Some,
        texts_upto(route, values, k) matches Some(texts) ==> texts.len() == capture_count(
            route.pieces.take(k),
        ) && spelled(route, values, k) == Some(instantiate(route.pieces.take(k), texts)),
    decreases k,
{
    let p = route.pieces;
    if k == 0 {
        assert(p.take(0) =~= Seq::<Piece>::empty());
    } else {
        lemma_spelled_is_instantiated(route, values, k - 1);
        assert(p.take(k) =~= p.take(k - 1).push(p[k - 1]));
        lemma_count_push(p.take(k - 1), p[k - 1]);
        if texts_upto(route, values, k) matches Some(texts) {
            let front = texts_upto(route, values, k - 1)->Some_0;
            match p[k - 1] {
                Piece::Literal(text) => {
                    lemma_instantiate_push_literal(p.take(k - 1), front, text);
                },
                Piece::Capture(name) => {
                    let text = capture_text(route, values, name)->Some_0;
                    lemma_instantiate_push_capture(p.take(k - 1), front, name, text);
                },
            }
        }
    }
}

proof fn lemma_slot_position(p: Seq<Piece>, name: Seq<char>) -> (q: int)
    requires
        slot_of(p, name) is Some,
    ensures
        0 <= q < p.len(),
        p[q] == Piece::Capture(name),
        capture_count(p.take(q)) == slot_of(p, name)->Some_0,
    decreases p.len(),
{
    if p[0] matches Piece::Capture(n) && n == name {
        assert(p.take(0) =~= Seq::<Piece>::empty());
        0
    } else {
        let tail = p.drop_first();
        let q = lemma_slot_position(tail, name);
        assert(p.take(q + 1).drop_first() =~= tail.take(q));
        assert(p.take(q + 1)[0] == p[0]);
        assert(p[q + 1] == tail[q]);
        q + 1
    }
}

proof fn lemma_text_at(route: RouteModel, values: Seq<Datum>, k: int, q: int)
    requires
        0 <= q < k <= route.pieces.len(),
        route.pieces[q] is Capture,
        texts_upto(route, values, k) is Some,
    ensures
        capture_text(route, values, route.pieces[q]->Capture_0) is Some,
        capture_count(route.pieces.take(q)) < texts_upto(route, values, k)->Some_0.len(),
        texts_upto(route, values, k)->Some_0[capture_count(route.pieces.take(q)) as int]
            == capture_text(route, values, route.pieces[q]->Capture_0)->Some_0,
    decreases k,
{
    lemma_spelled_is_instantiated(route, values, k - 1);
    if q < k - 1 {
        lemma_text_at(route, values, k - 1, q);
    }
}

/// What a value writes, if anything, is text that a placeholder can stand for.
pub open spec fn writes_value(field: PathFieldModel, value: Datum) -> bool {
    shown(field.kind, value) matches Some(text) ==> valid_value(text)
}

proof fn lemma_texts_valid(route: RouteModel, values: Seq<Datum>, k: int)
    requires
        0 <= k <= route.pieces.len(),
        texts_upto(route, values, k) is Some,
        forall|i: int|
            0 <= i < route.path_fields.len() && i < values.len() ==> #[trigger] writes_value(
                route.path_fields[i],
                values[i],
            ),
    ensures
        forall|c: int|
            0 <= c < texts_upto(route, values, k)->Some_0.len() ==> valid_value(
                #[trigger] texts_upto(route, values, k)->Some_0[c],
            ),
    decreases k,
{
    if k > 0 {
        lemma_texts_valid(route, values, k - 1);
        let front = texts_upto(route, values, k - 1)->Some_0;
        let texts = texts_upto(route, values, k)->Some_0;
        match route.pieces[k - 1] {
            Piece::Literal(_) => {},
            Piece::Capture(name) => {
                let i = field_named(route.path_fields, name, 0)->Some_0;
                lemma_field_named_in_range(route.path_fields, name, 0);
                let text = shown(route.path_fields[i].kind, values[i])->Some_0;
                assert(writes_value(route.path_fields[i], values[i]));
                assert(valid_value(text));
                assert forall|c: int| 0 <= c < texts.len() implies valid_value(
                    #[trigger] texts[c],
                ) by {
                    if c < front.len() {
                        assert(texts[c] == front[c]);
                    }
                }
            },
        }
    }
}

proof fn lemma_field_named_in_range(fields: Seq<PathFieldModel>, name: Seq<char>, from: int)
    requires
        0 <= from,
        field_named(fields, name, from) is Some,
    ensures
        from <= field_named(fields, name, from)->Some_0 < fields.len(),
        fields[field_named(fields, name, from)->Some_0].name == name,
    decreases fields.len() - from,
{
    if from < fields.len() && fields[from].name != name {
        lemma_field_named_in_range(fields, name, from + 1);
    }
}

/// No two fields have the same name.
pub open spec fn names_differ(fields: Seq<PathFieldModel>) -> bool {
    forall|i: int, j: int|
        0 <= i < j < fields.len() ==> (#[trigger] fields[i]).name != (#[trigger] fields[j]).name
}

proof fn lemma_field_named_finds(fields: Seq<PathFieldModel>, i: int, from: int)
    requires
        names_differ(fields),
        0 <= from <= i < fields.len(),
    ensures
        field_named(fields, fields[i].name, from) == Some(i),
    decreases i - from,
{
    if from < i {
        assert(fields[from].name != fields[i].name);
        lemma_field_named_finds(fields, i, from + 1);
    }
}

/// A record's value can be written and read back: its text is a value that a
/// placeholder can stand for, and converts to the value.
pub open spec fn reads_back(field: PathFieldModel, value: Datum) -> bool {
    shown(field.kind, value) matches Some(text) && valid_value(text) && converted(field.kind, text)
        == Some(value)
}

/// The path that a record writes matches the template of its route, and the
/// path fields decoded from it are the record's own: for a route without two
/// fields of one name, and a record each of whose values can be read back.
pub proof fn lemma_written_path_decodes(route: RouteModel, values: Seq<Datum>)
    requires
        route_ok(route),
        names_differ(route.path_fields),
        values.len() == route.path_fields.len(),
        forall|i: int|
            0 <= i < values.len() ==> reads_back(route.path_fields[i], #[trigger] values[i]),
        path_of(route, values) is Some,
    ensures
        match_path(route.pieces, path_of(route, values)->Some_0) is Some,
        path_values(route, match_path(route.pieces, path_of(route, values)->Some_0)->Some_0)
            == Ok::<Seq<Datum>, Fault>(values),
{
    let p = route.pieces;
    let n = p.len() as int;
    lemma_spelled_is_instantiated(route, values, n);
    assert(p.take(n) =~= p);
    let texts = texts_upto(route, values, n)->Some_0;
    assert forall|i: int|
        0 <= i < route.path_fields.len() && i < values.len() implies #[trigger] writes_value(
        route.path_fields[i],
        values[i],
    ) by {
        assert(reads_back(route.path_fields[i], values[i]));
    }
    lemma_texts_valid(route, values, n);
    assert(values_fit(p, texts));
    lemma_spelled_path_matches(p, texts);
    assert forall|i: int| 0 <= i < route.path_fields.len() implies field_value(
        p,
        #[trigger] route.path_fields[i],
        texts,
    ) == Some(values[i]) by {
        let name = route.path_fields[i].name;
        let q = lemma_slot_position(p, name);
        lemma_text_at(route, values, n, q);
        lemma_field_named_finds(route.path_fields, i, 0);
        assert(reads_back(route.path_fields[i], values[i]));
    }
    assert forall|i: int| !field_fails(route, texts, i) by {
        if 0 <= i < route.path_fields.len() {
            assert(field_value(p, route.path_fields[i], texts) == Some(values[i]));
        }
    }
    assert(Seq::new(
        route.path_fields.len(),
        |i: int| field_value(p, route.path_fields[i], texts)->Some_0,
    ) =~= values);
}

} // verus!
