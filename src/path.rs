use vstd::prelude::*;

verus! {

/// The path separator.
pub open spec fn is_sep(c: char) -> bool {
    c == '/'
}

/// `comp` is one plain file name: not empty and without a separator.
pub open spec fn is_file_name(comp: Seq<char>) -> bool {
    comp.len() > 0 && forall|i: int| 0 <= i < comp.len() ==> !is_sep(#[trigger] comp[i])
}

/// Joins `comp` onto `base` as a path: an absolute `comp` replaces `base`,
/// and a separator is put between the two unless `base` is empty or already
/// ends with one.
pub open spec fn join_spec(base: Seq<char>, comp: Seq<char>) -> Seq<char> {
    if comp.len() > 0 && is_sep(comp[0]) {
        comp
    } else if base.len() == 0 || is_sep(base.last()) {
        base + comp
    } else {
        base + seq!['/'] + comp
    }
}

/// Joins `comp` onto `base`, as `join_spec` states.
pub fn join(base: &str, comp: &str) -> (r: String)
    ensures
        r@ == join_spec(base@, comp@),
{
    let comp_len = comp.unicode_len();
    if comp_len > 0 && comp.get_char(0) == '/' {
        return comp.to_owned();
    }
    let base_len = base.unicode_len();
    let mut r = base.to_owned();
    if base_len > 0 && base.get_char(base_len - 1) != '/' {
        r.append("/");
    }
    r.append(comp);
    proof {
        reveal_strlit("/");
        assert(r@ =~= join_spec(base@, comp@));
    }
    r
}

} // verus!
