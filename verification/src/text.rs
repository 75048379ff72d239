use vstd::prelude::*;

verus! {

/// The characters of `s`, in order.
pub fn chars_of(s: &str) -> (v: Vec<char>)
    ensures
        v@ == s@,
{
    let mut v: Vec<char> = Vec::new();
    for c in it: s.chars()
        invariant
            it.seq() == s@,
            v@ == s@.take(it.index() as int),
    {
        v.push(c);
        assert(s@.take(it.index() + 1) =~= s@.take(it.index() as int).push(c));
    }
    assert(s@.take(s@.len() as int) =~= s@);
    v
}

/// The model of a list of strings.
pub open spec fn texts_of(strings: Seq<String>) -> Seq<Seq<char>> {
    strings.map_values(|s: String| s@)
}

/// The model of a string that may be lacking.
pub open spec fn text_model(text: Option<String>) -> Option<Seq<char>> {
    match text {
        Some(s) => Some(s@),
        None => None,
    }
}

/// Whether `part` stands in `whole` at position `at`.
pub fn stands_at(whole: &Vec<char>, at: usize, part: &Vec<char>) -> (found: bool)
    requires
        at <= whole.len(),
    ensures
        found == part@.is_prefix_of(whole@.skip(at as int)),
{
    if part.len() > whole.len() - at {
        return false;
    }
    let mut k: usize = 0;
    while k < part.len()
        invariant
            at <= whole.len(),
            part.len() <= whole.len() - at,
            k <= part.len(),
            forall|m: int| 0 <= m < k ==> part@[m] == whole@[at + m],
        decreases part.len() - k,
    {
        if part[k] != whole[at + k] {
            assert(whole@.skip(at as int)[k as int] == whole@[at + k]);
            return false;
        }
        k = k + 1;
    }
    assert(part@ =~= whole@.skip(at as int).subrange(0, part@.len() as int));
    true
}

/// Whether two texts are the same.
pub fn same_text(a: &Vec<char>, b: &Vec<char>) -> (same: bool)
    ensures
        same == (a@ == b@),
{
    if a.len() != b.len() {
        return false;
    }
    let found = stands_at(a, 0, b);
    proof {
        assert(a@.skip(0) =~= a@);
        if found {
            assert(a@ =~= b@);
        }
    }
    found
}

} // verus!
