use crate::identifier::{check_identifier, is_identifier};
use crate::text::chars_of;
use vstd::prelude::*;
use vstd::string::StrSliceExecFns;

verus! {

/// Why a template was refused.
#[derive(Debug, PartialEq, Eq, Clone)]
pub enum PathToRegexError {
    MissingLeadingForwardSlash,
    NonAsciiChars,
    InvalidIdentifier(String),
    InvalidTrailingSlash,
}

/// One segment of a compiled template.
#[derive(Debug, PartialEq, Eq, Clone)]
pub enum Segment {
    /// Text that the path must hold as it stands.
    Literal(String),
    /// A named placeholder: one or more characters other than `/`.
    Capture(String),
}

/// The mathematical model of a segment.
pub enum Piece {
    Literal(Seq<char>),
    Capture(Seq<char>),
}

impl View for Segment {
    type V = Piece;

    open spec fn view(&self) -> Piece {
        match self {
            Segment::Literal(text) => Piece::Literal(text@),
            Segment::Capture(name) => Piece::Capture(name@),
        }
    }
}

/// The model of a list of segments.
pub open spec fn pieces_of(segments: Seq<Segment>) -> Seq<Piece> {
    segments.map_values(|s: Segment| s@)
}

/// How many characters from `from` on differ from `stop`, up to the first `stop`
/// or the end of `t`.
pub open spec fn run_len(t: Seq<char>, from: int, stop: char) -> nat
    decreases t.len() - from,
{
    if from < 0 || from >= t.len() || t[from] == stop {
        0
    } else {
        1 + run_len(t, from + 1, stop)
    }
}

/// Puts `front` before the pieces of a scan that succeeded.
pub open spec fn prepend(front: Seq<Piece>, rest: Result<Seq<Piece>, Seq<char>>) -> Result<
    Seq<Piece>,
    Seq<char>,
> {
    match rest {
        Ok(pieces) => Ok(front + pieces),
        Err(name) => Err(name),
    }
}

/// The segments of `t` from position `i` on, read outside of a placeholder, or the
/// first placeholder name that breaks the identifier rule. A `:` opens a name,
/// which runs to the next `/` or to the end; other text is literal up to the next `:`.
pub open spec fn scan(t: Seq<char>, i: int) -> Result<Seq<Piece>, Seq<char>>
    decreases t.len() - i,
    via scan_terminates
{
    if i < 0 || i >= t.len() {
        Ok(Seq::empty())
    } else if t[i] == ':' {
        let j = i + 1 + run_len(t, i + 1, '/');
        let name = t.subrange(i + 1, j);
        if !is_identifier(name) {
            Err(name)
        } else {
            prepend(seq![Piece::Capture(name)], scan(t, j))
        }
    } else {
        let j = i + 1 + run_len(t, i + 1, ':');
        prepend(seq![Piece::Literal(t.subrange(i, j))], scan(t, j))
    }
}

#[via_fn]
proof fn scan_terminates(t: Seq<char>, i: int) {
    if 0 <= i < t.len() {
        lemma_run_len_bound(t, i + 1, '/');
        lemma_run_len_bound(t, i + 1, ':');
    }
}

/// The model of `PathToRegexError`.
pub enum TemplateFault {
    MissingLeadingForwardSlash,
    NonAsciiChars,
    InvalidIdentifier(Seq<char>),
    InvalidTrailingSlash,
}

impl View for PathToRegexError {
    type V = TemplateFault;

    open spec fn view(&self) -> TemplateFault {
        match self {
            PathToRegexError::MissingLeadingForwardSlash => TemplateFault::MissingLeadingForwardSlash,
            PathToRegexError::NonAsciiChars => TemplateFault::NonAsciiChars,
            PathToRegexError::InvalidIdentifier(name) => TemplateFault::InvalidIdentifier(name@),
            PathToRegexError::InvalidTrailingSlash => TemplateFault::InvalidTrailingSlash,
        }
    }
}

/// What compiling the template `t` gives: its segments, or the first fault in the
/// order in which they are looked for.
pub open spec fn compiled(t: Seq<char>) -> Result<Seq<Piece>, TemplateFault> {
    if !vstd::utf8::is_ascii_chars(t) {
        Err(TemplateFault::NonAsciiChars)
    } else if t.len() == 0 || t[0] != '/' {
        Err(TemplateFault::MissingLeadingForwardSlash)
    } else {
        match scan(t, 0) {
            Err(name) => Err(TemplateFault::InvalidIdentifier(name)),
            Ok(pieces) => if t.last() == '/' {
                Err(TemplateFault::InvalidTrailingSlash)
            } else {
                Ok(pieces)
            },
        }
    }
}

/// What holds of each segment of a compiled template, and of its neighbour: a
/// literal has text, a name is an identifier, and what follows a placeholder
/// starts with `/`.
pub open spec fn segments_ok(p: Seq<Piece>) -> bool {
    forall|k: int|
        0 <= k < p.len() ==> match #[trigger] p[k] {
            Piece::Literal(text) => text.len() > 0,
            Piece::Capture(name) => is_identifier(name) && (k + 1 < p.len() ==> starts_with_slash(
                p[k + 1],
            )),
        }
}

/// A literal whose first character is `/`.
pub open spec fn starts_with_slash(piece: Piece) -> bool {
    piece matches Piece::Literal(text) && text.len() > 0 && text[0] == '/'
}

/// A segment after which a path does not end in `/`.
pub open spec fn ends_without_slash(piece: Piece) -> bool {
    match piece {
        Piece::Literal(text) => text.len() > 0 && text.last() != '/',
        Piece::Capture(_) => true,
    }
}

/// The invariant of a compiled template.
pub open spec fn well_formed(p: Seq<Piece>) -> bool {
    &&& p.len() > 0
    &&& starts_with_slash(p[0])
    &&& ends_without_slash(p.last())
    &&& segments_ok(p)
}

proof fn lemma_scan_shape(t: Seq<char>, i: int)
    requires
        0 <= i < t.len(),
        scan(t, i) is Ok,
    ensures
        ({
            let p = scan(t, i)->Ok_0;
            &&& p.len() > 0
            &&& segments_ok(p)
            &&& t[i] != ':' ==> p[0] is Literal && p[0]->Literal_0.len() > 0
                && p[0]->Literal_0[0] == t[i]
            &&& p.last() matches Piece::Literal(text) ==> text.len() > 0 && text.last()
                == t.last()
        }),
    decreases t.len() - i,
{
    let stop = if t[i] == ':' { '/' } else { ':' };
    let j = i + 1 + run_len(t, i + 1, stop);
    lemma_run_len_bound(t, i + 1, stop);
    let p = scan(t, i)->Ok_0;
    let head = p[0];
    if j < t.len() {
        lemma_scan_shape(t, j);
        let rest = scan(t, j)->Ok_0;
        assert(p =~= seq![head] + rest);
        assert(forall|k: int| 1 <= k < p.len() ==> p[k] == rest[k - 1]);
        assert(p.last() == rest.last());
        assert forall|k: int| 0 <= k < p.len() implies match #[trigger] p[k] {
            Piece::Literal(text) => text.len() > 0,
            Piece::Capture(name) => is_identifier(name) && (k + 1 < p.len() ==> starts_with_slash(
                p[k + 1],
            )),
        } by {
            if k > 0 {
                assert(p[k] == rest[k - 1]);
                if k + 1 < p.len() {
                    assert(p[k + 1] == rest[k]);
                }
            } else {
                assert(p[1] == rest[0]);
            }
        }
    } else {
        assert(scan(t, j) == Ok::<Seq<Piece>, Seq<char>>(Seq::empty()));
        assert(p =~= seq![head]);
    }
}

/// A template that compiles gives well-formed segments.
pub proof fn lemma_compiled_well_formed(t: Seq<char>)
    requires
        compiled(t) is Ok,
    ensures
        well_formed(compiled(t)->Ok_0),
{
    lemma_scan_shape(t, 0);
}

/// A run ends inside `t`, at a `stop` or at the end, and holds no `stop`.
pub proof fn lemma_run_len_bound(t: Seq<char>, from: int, stop: char)
    requires
        0 <= from <= t.len(),
    ensures
        from + run_len(t, from, stop) <= t.len(),
        from + run_len(t, from, stop) < t.len() ==> t[from + run_len(t, from, stop)] == stop,
        forall|k: int| from <= k < from + run_len(t, from, stop) ==> t[k] != stop,
    decreases t.len() - from,
{
    if from < t.len() && t[from] != stop {
        lemma_run_len_bound(t, from + 1, stop);
    }
}

/// The end of the run that starts at `from` and stops before the first `stop`.
pub fn find_run_end(chars: &Vec<char>, from: usize, stop: char) -> (end: usize)
    requires
        from <= chars.len(),
    ensures
        end == from + run_len(chars@, from as int, stop),
        from <= end <= chars.len(),
{
    let mut k: usize = from;
    while k < chars.len() && chars[k] != stop
        invariant
            from <= k <= chars.len(),
            run_len(chars@, from as int, stop) == (k - from) + run_len(chars@, k as int, stop),
        decreases chars.len() - k,
    {
        k = k + 1;
    }
    k
}

/// An ASCII template that does not start with `/` is refused for that.
pub proof fn lemma_leading_slash_required(t: Seq<char>)
    requires
        vstd::utf8::is_ascii_chars(t),
        t.len() == 0 || t[0] != '/',
    ensures
        compiled(t) == Err::<Seq<Piece>, TemplateFault>(TemplateFault::MissingLeadingForwardSlash),
{
}

/// A template that ends in `/`, and has no other fault, is refused for that.
pub proof fn lemma_trailing_slash_refused(t: Seq<char>)
    requires
        vstd::utf8::is_ascii_chars(t),
        t.len() > 0 && t[0] == '/',
        scan(t, 0) is Ok,
        t.last() == '/',
    ensures
        compiled(t) == Err::<Seq<Piece>, TemplateFault>(TemplateFault::InvalidTrailingSlash),
{
}

proof fn lemma_scan_meets_colon(t: Seq<char>, k: int, i: int)
    requires
        0 <= k <= i,
        i + 1 < t.len(),
        t[i] == ':',
        !crate::identifier::is_letter(t[i + 1]),
        t[i + 1] != '/',
    ensures
        scan(t, k) is Err,
    decreases t.len() - k,
{
    if t[k] == ':' {
        let j = k + 1 + run_len(t, k + 1, '/');
        lemma_run_len_bound(t, k + 1, '/');
        let name = t.subrange(k + 1, j);
        if i < j {
            if i == k {
                assert(j > i + 1);
                assert(name[0] == t[i + 1]);
            } else {
                assert(name[i - k - 1] == t[i]);
                assert(!crate::identifier::is_name_char(name[i - k - 1]));
            }
            assert(!is_identifier(name));
        } else {
            if is_identifier(name) {
                lemma_scan_meets_colon(t, j, i);
            }
        }
    } else {
        let j = k + 1 + run_len(t, k + 1, ':');
        lemma_run_len_bound(t, k + 1, ':');
        lemma_scan_meets_colon(t, j, i);
    }
}

/// A template in which a `:` is followed by a digit or an underscore is refused
/// for a placeholder name.
pub proof fn lemma_name_must_start_with_letter(t: Seq<char>, i: int)
    requires
        vstd::utf8::is_ascii_chars(t),
        t.len() > 0 && t[0] == '/',
        0 <= i && i + 1 < t.len(),
        t[i] == ':',
        ('0' <= t[i + 1] && t[i + 1] <= '9') || t[i + 1] == '_',
    ensures
        compiled(t) is Err,
        compiled(t)->Err_0 is InvalidIdentifier,
{
    lemma_scan_meets_colon(t, 0, i);
}

/// Compiles a template into its segments.
pub fn compile_segments(template: &str) -> (result: Result<Vec<Segment>, PathToRegexError>)
    ensures
        match result {
            Ok(segments) => compiled(template@) == Ok::<Seq<Piece>, TemplateFault>(
                pieces_of(segments@),
            ),
            Err(fault) => compiled(template@) == Err::<Seq<Piece>, TemplateFault>(fault@),
        },
{
    if !template.is_ascii() {
        return Err(PathToRegexError::NonAsciiChars);
    }
    let chars = chars_of(template);
    let n: usize = chars.len();
    if n == 0 || chars[0] != '/' {
        return Err(PathToRegexError::MissingLeadingForwardSlash);
    }
    let mut segments: Vec<Segment> = Vec::new();
    let mut i: usize = 0;
    while i < n
        invariant
            chars@ == template@,
            n == chars.len(),
            i <= n,
            vstd::utf8::is_ascii_chars(template@),
            n > 0 && chars[0] == '/',
            scan(template@, 0) == prepend(pieces_of(segments@), scan(template@, i as int)),
        decreases n - i,
    {
        let ghost before = pieces_of(segments@);
        if chars[i] == ':' {
            let j: usize = find_run_end(&chars, i + 1, '/');
            let name = template.substring_char(i + 1, j);
            if !check_identifier(name) {
                assert(scan(template@, i as int) == Err::<Seq<Piece>, Seq<char>>(name@));
                return Err(PathToRegexError::InvalidIdentifier(name.to_owned()));
            }
            segments.push(Segment::Capture(name.to_owned()));
            proof {
                let piece = Piece::Capture(name@);
                assert(pieces_of(segments@) =~= before.push(piece));
                match scan(template@, j as int) {
                    Ok(rest) => {
                        assert(before + (seq![piece] + rest) =~= before.push(piece) + rest);
                    },
                    Err(_) => {},
                }
            }
            i = j;
        } else {
            let j: usize = find_run_end(&chars, i + 1, ':');
            let text = template.substring_char(i, j);
            segments.push(Segment::Literal(text.to_owned()));
            proof {
                let piece = Piece::Literal(text@);
                assert(pieces_of(segments@) =~= before.push(piece));
                match scan(template@, j as int) {
                    Ok(rest) => {
                        assert(before + (seq![piece] + rest) =~= before.push(piece) + rest);
                    },
                    Err(_) => {},
                }
            }
            i = j;
        }
    }
    assert(pieces_of(segments@) + Seq::<Piece>::empty() =~= pieces_of(segments@));
    if chars[n - 1] == '/' {
        return Err(PathToRegexError::InvalidTrailingSlash);
    }
    Ok(segments)
}

} // verus!
