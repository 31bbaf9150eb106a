use vstd::prelude::*;

verus! {

/// The separator between the entries of a search path.
pub open spec fn is_path_list_sep(c: char) -> bool {
    c == ':'
}

/// `s` holds no search-path separator.
pub open spec fn no_list_sep(s: Seq<char>) -> bool {
    forall|k: int| 0 <= k < s.len() ==> !is_path_list_sep(#[trigger] s[k])
}

/// `m` stands in `s` from position `p` on.
pub open spec fn occurs_at(s: Seq<char>, m: Seq<char>, p: int) -> bool {
    0 <= p && p + m.len() <= s.len() && s.subrange(p, p + m.len()) == m
}

/// `m` stands somewhere in `s`.
pub open spec fn contains(s: Seq<char>, m: Seq<char>) -> bool {
    exists|p: int| occurs_at(s, m, p)
}

/// `s[a..b]` is one whole entry of the search path `s`.
pub open spec fn is_entry(s: Seq<char>, a: int, b: int) -> bool {
    &&& 0 <= a <= b <= s.len()
    &&& (a == 0 || is_path_list_sep(s[a - 1]))
    &&& (b == s.len() || is_path_list_sep(s[b]))
    &&& no_list_sep(s.subrange(a, b))
}

/// `s[a..b]` is the first entry of the search path `s` that contains `m`:
/// no part of `s` before it contains `m`.
pub open spec fn is_first_entry_with(s: Seq<char>, m: Seq<char>, a: int, b: int) -> bool {
    &&& is_entry(s, a, b)
    &&& contains(s.subrange(a, b), m)
    &&& !contains(s.subrange(0, a), m)
}

/// Whether `m` stands in `s[a..b]`.
pub fn contains_within(s: &str, a: usize, b: usize, m: &str) -> (r: bool)
    requires
        a <= b <= s@.len(),
    ensures
        r == contains(s@.subrange(a as int, b as int), m@),
{
    let ghost seg = s@.subrange(a as int, b as int);
    let ml = m.unicode_len();
    if ml > b - a {
        proof {
            assert forall|p: int| !occurs_at(seg, m@, p) by {}
        }
        return false;
    }
    let last = b - ml;
    let mut p: usize = a;
    while p <= last
        invariant
            a <= p <= last + 1,
            last + ml == b,
            b <= s@.len(),
            ml == m@.len(),
            seg == s@.subrange(a as int, b as int),
            forall|q: int| 0 <= q < p - a ==> !occurs_at(seg, m@, q),
        decreases last + 1 - p,
    {
        let mut j: usize = 0;
        while j < ml && s.get_char(p + j) == m.get_char(j)
            invariant
                j <= ml,
                p <= last,
                last + ml == b,
                b <= s@.len(),
                ml == m@.len(),
                forall|k: int| 0 <= k < j ==> s@[p + k] == m@[k],
            decreases ml - j,
        {
            j = j + 1;
        }
        if j == ml {
            proof {
                assert(seg.subrange(p - a, p - a + ml) =~= m@);
                assert(occurs_at(seg, m@, p - a));
            }
            return true;
        }
        proof {
            assert(seg.subrange(p - a, p - a + ml)[j as int] == s@[p + j]);
        }
        p = p + 1;
    }
    proof {
        assert forall|q: int| !occurs_at(seg, m@, q) by {
            if 0 <= q && q + ml <= seg.len() {
                assert(q < p - a);
            }
        }
    }
    false
}

/// No occurrence of `m` in `s[0..e]` runs over a separator: a prefix of `s`
/// ending before an entry, followed by that entry, holds `m` only where one
/// of the two does.
pub proof fn lemma_no_occurrence_across(s: Seq<char>, m: Seq<char>, a: int, b: int)
    requires
        0 <= a <= b <= s.len(),
        a == 0 || is_path_list_sep(s[a - 1]),
        no_list_sep(m),
        !contains(s.subrange(0, a), m),
        !contains(s.subrange(a, b), m),
    ensures
        !contains(s.subrange(0, b), m),
        b < s.len() && is_path_list_sep(s[b]) ==> !contains(s.subrange(0, b + 1), m),
{
    let ml = m.len() as int;
    assert forall|e: int, p: int| (e == b || (e == b + 1 && b < s.len() && is_path_list_sep(s[b])))
        implies !#[trigger] occurs_at(s.subrange(0, e), m, p) by {
        if occurs_at(s.subrange(0, e), m, p) {
            assert(s.subrange(0, e).subrange(p, p + ml) =~= s.subrange(p, p + ml));
            if ml == 0 {
                assert(s.subrange(a, b).subrange(0, 0) =~= m);
                assert(occurs_at(s.subrange(a, b), m, 0));
            } else if p + ml <= a {
                assert(s.subrange(0, a).subrange(p, p + ml) =~= s.subrange(p, p + ml));
                assert(occurs_at(s.subrange(0, a), m, p));
            } else if p < a {
                assert(s.subrange(p, p + ml)[a - 1 - p] == s[a - 1]);
                assert(!is_path_list_sep(m[a - 1 - p]));
            } else if p + ml <= b {
                assert(s.subrange(a, b).subrange(p - a, p - a + ml) =~= s.subrange(p, p + ml));
                assert(occurs_at(s.subrange(a, b), m, p - a));
            } else {
                assert(e == b + 1);
                assert(s.subrange(p, p + ml)[b - p] == s[b]);
                assert(!is_path_list_sep(m[b - p]));
            }
        }
    }
}

} // verus!

verus! {

/// What a part of `s` contains, `s` contains.
pub proof fn lemma_contains_sub(s: Seq<char>, m: Seq<char>, a: int, b: int)
    requires
        0 <= a <= b <= s.len(),
        contains(s.subrange(a, b), m),
    ensures
        contains(s, m),
{
    let p = choose|p: int| occurs_at(s.subrange(a, b), m, p);
    assert(s.subrange(a, b).subrange(p, p + m.len()) =~= s.subrange(a + p, a + p + m.len()));
    assert(occurs_at(s, m, a + p));
}

} // verus!
