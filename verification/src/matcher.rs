use crate::matching::{match_path, shifted, slot_of};
use crate::pattern::{
    compile_segments, compiled, find_run_end, lemma_compiled_well_formed,
    pieces_of, run_len, well_formed, PathToRegexError, Piece, Segment, TemplateFault,
};
use crate::text::{chars_of, same_text, stands_at, texts_of};
use vstd::prelude::*;
use vstd::string::{StrSliceExecFns, StringExecFns};

verus! {

/// A compiled template: its segments, in order. Matching takes the whole path.
#[derive(Debug)]
pub struct Matcher {
    segments: Vec<Segment>,
}

impl View for Matcher {
    type V = Seq<Piece>;

    closed spec fn view(&self) -> Seq<Piece> {
        pieces_of(self.segments@)
    }
}

/// Puts `front` before the values of a match that succeeded.
pub open spec fn with_front(front: Seq<Seq<char>>, rest: Option<Seq<Seq<char>>>) -> Option<
    Seq<Seq<char>>,
> {
    match rest {
        Some(values) => Some(front + values),
        None => None,
    }
}

/// The model of what a match returns.
pub open spec fn values_of(found: Option<Vec<String>>) -> Option<Seq<Seq<char>>> {
    match found {
        Some(values) => Some(texts_of(values@)),
        None => None,
    }
}

proof fn lemma_run_len_skip(t: Seq<char>, from: int, stop: char)
    requires
        0 <= from <= t.len(),
    ensures
        run_len(t.skip(from), 0, stop) == run_len(t, from, stop),
    decreases t.len() - from,
{
    let s = t.skip(from);
    if from < t.len() && t[from] != stop {
        lemma_run_len_skip(t, from + 1, stop);
        assert(t.skip(from + 1) =~= s.skip(1));
        lemma_run_len_shift(s, t.skip(from + 1), 1, stop);
    }
}

proof fn lemma_run_len_shift(s: Seq<char>, next: Seq<char>, k: int, stop: char)
    requires
        s.len() > 0,
        next == s.skip(1),
        1 <= k <= s.len(),
    ensures
        run_len(s, k, stop) == run_len(next, k - 1, stop),
    decreases s.len() - k,
{
    if k < s.len() && s[k] != stop {
        assert(next[k - 1] == s[k]);
        lemma_run_len_shift(s, next, k + 1, stop);
    }
}

/// A segment in the notation of the `regex` crate: a literal as it stands, a
/// placeholder as a named group of one or more characters other than `/`.
pub open spec fn piece_pattern(piece: Piece) -> Seq<char> {
    match piece {
        Piece::Literal(text) => text,
        Piece::Capture(name) => "(?P<"@ + name + ">[^/]+)"@,
    }
}

/// The segments, one after the other, in the notation of the `regex` crate.
pub open spec fn pieces_pattern(p: Seq<Piece>) -> Seq<char>
    decreases p.len(),
{
    if p.len() == 0 {
        Seq::empty()
    } else {
        pieces_pattern(p.drop_last()) + piece_pattern(p.last())
    }
}

/// The pattern of a compiled template, anchored at both ends.
pub open spec fn anchored_pattern(p: Seq<Piece>) -> Seq<char> {
    "^"@ + pieces_pattern(p) + "$"@
}

impl Matcher {
    #[verifier::type_invariant]
    spec fn inv(&self) -> bool {
        well_formed(self@)
    }

    /// Compiles a template, or says what is wrong with it.
    pub fn compile(template: &str) -> (result: Result<Matcher, PathToRegexError>)
        ensures
            match result {
                Ok(matcher) => compiled(template@) == Ok::<Seq<Piece>, TemplateFault>(matcher@)
                    && well_formed(matcher@),
                Err(fault) => compiled(template@) == Err::<Seq<Piece>, TemplateFault>(fault@),
            },
    {
        match compile_segments(template) {
            Ok(segments) => {
                proof {
                    lemma_compiled_well_formed(template@);
                }
                Ok(Matcher { segments })
            },
            Err(fault) => Err(fault),
        }
    }

    /// The segments of the template, in order.
    pub fn segments(&self) -> (segments: &Vec<Segment>)
        ensures
            pieces_of(segments@) == self@,
            well_formed(self@),
    {
        proof {
            use_type_invariant(self);
        }
        &self.segments
    }

    /// The template as an anchored pattern for the `regex` crate.
    pub fn path_pattern(&self) -> (pattern: String)
        ensures
            pattern@ == anchored_pattern(self@),
    {
        let mut pattern = String::from_str("^");
        let mut k: usize = 0;
        assert(self@.take(0) =~= Seq::<Piece>::empty());
        assert("^"@ + Seq::<char>::empty() =~= "^"@);
        while k < self.segments.len()
            invariant
                k <= self.segments.len(),
                self@ == pieces_of(self.segments@),
                pattern@ == "^"@ + pieces_pattern(self@.take(k as int)),
            decreases self.segments.len() - k,
        {
            let ghost before = pieces_pattern(self@.take(k as int));
            let ghost piece = self.segments@[k as int]@;
            assert(self@.take(k + 1).drop_last() =~= self@.take(k as int));
            assert(self@.take(k + 1).last() == piece);
            match &self.segments[k] {
                Segment::Literal(text) => {
                    pattern.append(text.as_str());
                },
                Segment::Capture(name) => {
                    pattern.append("(?P<");
                    pattern.append(name.as_str());
                    pattern.append(">[^/]+)");
                    assert(pattern@ =~= "^"@ + before + ("(?P<"@ + name@ + ">[^/]+)"@));
                },
            }
            assert(pattern@ =~= "^"@ + (before + piece_pattern(piece)));
            k = k + 1;
        }
        assert(self@.take(k as int) =~= self@);
        pattern.append("$");
        pattern
    }

    /// The position, among the placeholders, of the first one named `name`.
    pub fn slot(&self, name: &str) -> (found: Option<usize>)
        ensures
            match found {
                Some(k) => slot_of(self@, name@) == Some(k as nat),
                None => slot_of(self@, name@) is None,
            },
    {
        let wanted = chars_of(name);
        let segments = self.segments();
        let mut seen: usize = 0;
        let mut i: usize = 0;
        assert(self@.skip(0) =~= self@);
        while i < segments.len()
            invariant
                i <= segments.len(),
                seen <= i,
                wanted@ == name@,
                self@ == pieces_of(segments@),
                slot_of(self@, name@) == shifted(slot_of(self@.skip(i as int), name@), seen as nat),
            decreases segments.len() - i,
        {
            let ghost rest = self@.skip(i as int);
            assert(rest[0] == segments@[i as int]@);
            assert(rest.drop_first() =~= self@.skip(i + 1));
            match &segments[i] {
                Segment::Capture(n) => {
                    if same_text(&wanted, &chars_of(n.as_str())) {
                        return Some(seen);
                    }
                    seen = seen + 1;
                },
                Segment::Literal(_) => {},
            }
            i = i + 1;
        }
        None
    }

    /// Matches the whole of `path` and gives the text of each placeholder, in order.
    pub fn captures(&self, path: &str) -> (found: Option<Vec<String>>)
        ensures
            values_of(found) == match_path(self@, path@),
            well_formed(self@),
    {
        proof {
            use_type_invariant(self);
        }
        let chars = chars_of(path);
        let n: usize = chars.len();
        let mut values: Vec<String> = Vec::new();
        let mut i: usize = 0;
        let mut k: usize = 0;
        assert(self@.skip(0) =~= self@);
        assert(path@.skip(0) =~= path@);
        assert(Seq::<Seq<char>>::empty() + match_path(self@, path@)->Some_0 =~= match_path(
            self@,
            path@,
        )->Some_0);
        while k < self.segments.len()
            invariant
                chars@ == path@,
                n == chars.len(),
                i <= n,
                k <= self.segments.len(),
                self@ == pieces_of(self.segments@),
                well_formed(self@),
                match_path(self@, path@) == with_front(
                    texts_of(values@),
                    match_path(self@.skip(k as int), path@.skip(i as int)),
                ),
            decreases self.segments.len() - k,
        {
            let ghost rest_pieces = self@.skip(k as int);
            let ghost rest_input = path@.skip(i as int);
            let ghost before = texts_of(values@);
            assert(rest_pieces[0] == self.segments@[k as int]@);
            assert(rest_pieces.drop_first() =~= self@.skip(k + 1));
            match &self.segments[k] {
                Segment::Literal(text) => {
                    let literal = chars_of(text.as_str());
                    if !stands_at(&chars, i, &literal) {
                        return None;
                    }
                    assert(rest_input.skip(literal@.len() as int) =~= path@.skip(
                        i + literal@.len(),
                    ));
                    i = i + literal.len();
                },
                Segment::Capture(_) => {
                    let j: usize = find_run_end(&chars, i, '/');
                    proof {
                        lemma_run_len_skip(path@, i as int, '/');
                    }
                    if j == i {
                        return None;
                    }
                    let value = path.substring_char(i, j).to_owned();
                    values.push(value);
                    proof {
                        let m = (j - i) as int;
                        assert(rest_input.take(m) =~= path@.subrange(i as int, j as int));
                        assert(rest_input.skip(m) =~= path@.skip(j as int));
                        assert(texts_of(values@) =~= before.push(value@));
                        match match_path(rest_pieces.drop_first(), rest_input.skip(m)) {
                            Some(later) => {
                                assert(before + (seq![value@] + later) =~= before.push(value@)
                                    + later);
                            },
                            None => {},
                        }
                    }
                    i = j;
                },
            }
            k = k + 1;
        }
        assert(self@.skip(k as int).len() == 0);
        if i != n {
            return None;
        }
        assert(path@.skip(i as int).len() == 0);
        assert(texts_of(values@) + Seq::<Seq<char>>::empty() =~= texts_of(values@));
        Some(values)
    }
}

/// Compiles a template and writes it as an anchored pattern for the `regex` crate.
pub fn path_to_regex(path: &str) -> (result: Result<String, PathToRegexError>)
    ensures
        match result {
            Ok(pattern) => compiled(path@) is Ok && pattern@ == anchored_pattern(
                compiled(path@)->Ok_0,
            ),
            Err(fault) => compiled(path@) == Err::<Seq<Piece>, TemplateFault>(fault@),
        },
{
    match Matcher::compile(path) {
        Ok(matcher) => Ok(matcher.path_pattern()),
        Err(fault) => Err(fault),
    }
}

} // verus!
