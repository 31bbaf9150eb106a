use vstd::prelude::*;

verus! {

/// An ASCII digit.
pub open spec fn is_digit(c: char) -> bool {
    '0' <= c && c <= '9'
}

/// `s` holds at least one ASCII digit.
pub open spec fn has_digit(s: Seq<char>) -> bool {
    exists|i: int| 0 <= i < s.len() && is_digit(#[trigger] s[i])
}

/// `s` holds no `@`.
pub open spec fn no_at(s: Seq<char>) -> bool {
    forall|i: int| 0 <= i < s.len() ==> #[trigger] s[i] != '@'
}

/// `i` is the position of the first `@` in `s`.
pub open spec fn is_first_at(s: Seq<char>, i: int) -> bool {
    0 <= i < s.len() && s[i] == '@' && no_at(s.subrange(0, i))
}

/// A package specifier `name@version`, split at its first `@`: the name must
/// not be empty and the version must hold a digit.
pub open spec fn parse_spec(s: Seq<char>) -> Option<(Seq<char>, Seq<char>)> {
    if exists|i: int| is_first_at(s, i) {
        let i = choose|i: int| is_first_at(s, i);
        let name = s.subrange(0, i);
        let version = s.subrange(i + 1, s.len() as int);
        if name.len() >= 1 && has_digit(version) {
            Some((name, version))
        } else {
            None
        }
    } else {
        None
    }
}

/// There is at most one first `@`.
pub proof fn lemma_first_at_unique(s: Seq<char>, i: int, j: int)
    requires
        is_first_at(s, i),
        is_first_at(s, j),
    ensures
        i == j,
{
    if i < j {
        assert(s.subrange(0, j)[i] == s[i]);
    } else if j < i {
        assert(s.subrange(0, i)[j] == s[j]);
    }
}

/// A string without `@` is never a valid specifier.
pub proof fn lemma_parse_needs_at(s: Seq<char>)
    requires
        no_at(s),
    ensures
        parse_spec(s) is None,
{
    assert forall|i: int| !is_first_at(s, i) by {
        if 0 <= i < s.len() {
            assert(s[i] != '@');
        }
    }
}

/// Joining a name without `@` that is not empty and a version that holds a
/// digit with an `@` gives a specifier that parses back to that same name and
/// version.
pub proof fn lemma_parse_joined(name: Seq<char>, version: Seq<char>)
    requires
        name.len() >= 1,
        no_at(name),
        has_digit(version),
    ensures
        parse_spec(name + seq!['@'] + version) == Some((name, version)),
{
    let s = name + seq!['@'] + version;
    let i = name.len() as int;
    assert(s.subrange(0, i) =~= name);
    assert(s.subrange(i + 1, s.len() as int) =~= version);
    assert(is_first_at(s, i));
    let k = choose|k: int| is_first_at(s, k);
    lemma_first_at_unique(s, i, k);
}

} // verus!
