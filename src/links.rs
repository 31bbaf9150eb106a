use vstd::prelude::*;

use crate::path::{is_file_name, is_sep, join_spec};

verus! {

/// One link to make: a symbolic link at `link` that points at `source`.
pub struct Link {
    /// The executable that the link points at.
    pub source: String,
    /// Where the link stands.
    pub link: String,
}

impl View for Link {
    type V = (Seq<char>, Seq<char>);

    open spec fn view(&self) -> (Seq<char>, Seq<char>) {
        (self.source@, self.link@)
    }
}

/// The link that makes the executable `entry` of `install_bin` active in
/// `bin_dir`: the link `bin_dir/entry` points at `install_bin/entry`.
pub open spec fn link_for(bin_dir: Seq<char>, install_bin: Seq<char>, entry: Seq<char>) -> (
    Seq<char>,
    Seq<char>,
) {
    (join_spec(install_bin, entry), join_spec(bin_dir, entry))
}

/// The links that make every executable in `entries` active, in order.
pub open spec fn plan_for(
    bin_dir: Seq<char>,
    install_bin: Seq<char>,
    entries: Seq<Seq<char>>,
) -> Seq<(Seq<char>, Seq<char>)> {
    entries.map_values(|e: Seq<char>| link_for(bin_dir, install_bin, e))
}

/// The active links, from where each stands to what it points at, after the
/// links of `plan` are made one after the other on top of `active`: a link
/// that already stands is replaced.
pub open spec fn activate(
    active: Map<Seq<char>, Seq<char>>,
    plan: Seq<(Seq<char>, Seq<char>)>,
) -> Map<Seq<char>, Seq<char>>
    decreases plan.len(),
{
    if plan.len() == 0 {
        active
    } else {
        activate(active, plan.drop_last()).insert(plan.last().1, plan.last().0)
    }
}

/// What joining a relative component adds in front of it.
pub open spec fn join_prefix(base: Seq<char>) -> Seq<char> {
    if base.len() == 0 || is_sep(base.last()) {
        base
    } else {
        base + seq!['/']
    }
}

/// Joining a file name puts it after the base's prefix, and the result ends
/// in no separator.
pub proof fn lemma_join_file_name(base: Seq<char>, comp: Seq<char>)
    requires
        is_file_name(comp),
    ensures
        join_spec(base, comp) == join_prefix(base) + comp,
        !is_sep(join_spec(base, comp).last()),
        join_spec(base, comp).len() > 0,
{
    assert(!is_sep(comp[0]));
    assert(!is_sep(comp[comp.len() - 1]));
    assert((join_prefix(base) + comp).last() == comp[comp.len() - 1]);
}

/// Two file names joined onto one base give one path only if they are equal.
pub proof fn lemma_join_injective(base: Seq<char>, c1: Seq<char>, c2: Seq<char>)
    requires
        is_file_name(c1),
        is_file_name(c2),
        join_spec(base, c1) == join_spec(base, c2),
    ensures
        c1 == c2,
{
    lemma_join_file_name(base, c1);
    lemma_join_file_name(base, c2);
    let pre = join_prefix(base);
    assert((pre + c1).subrange(pre.len() as int, (pre + c1).len() as int) =~= c1);
    assert((pre + c2).subrange(pre.len() as int, (pre + c2).len() as int) =~= c2);
}

/// Two paths of one length with the same file name joined onto each are equal
/// only if the paths are.
pub proof fn lemma_join_cancel(b1: Seq<char>, b2: Seq<char>, comp: Seq<char>)
    requires
        is_file_name(comp),
        b1.len() > 0 && !is_sep(b1.last()),
        b2.len() > 0 && !is_sep(b2.last()),
        join_spec(b1, comp) == join_spec(b2, comp),
    ensures
        b1 == b2,
{
    lemma_join_file_name(b1, comp);
    lemma_join_file_name(b2, comp);
    let j = join_spec(b1, comp);
    assert(j.subrange(0, b1.len() as int) =~= b1);
    assert(j.subrange(0, b2.len() as int) =~= b2);
}

/// A link that no step of a plan makes stands as before.
proof fn lemma_activate_untouched(
    active: Map<Seq<char>, Seq<char>>,
    plan: Seq<(Seq<char>, Seq<char>)>,
    k: Seq<char>,
)
    requires
        forall|i: int| 0 <= i < plan.len() ==> #[trigger] plan[i].1 != k,
    ensures
        activate(active, plan).dom().contains(k) == active.dom().contains(k),
        activate(active, plan)[k] == active[k],
    decreases plan.len(),
{
    if plan.len() > 0 {
        let rest = plan.drop_last();
        assert(plan[plan.len() - 1].1 != k);
        assert forall|i: int| 0 <= i < rest.len() implies #[trigger] rest[i].1 != k by {
            assert(rest[i] == plan[i]);
        }
        lemma_activate_untouched(active, rest, k);
    }
}

/// A link that step `i` of a plan makes, and no later step makes again,
/// points where step `i` says.
proof fn lemma_activate_last(
    active: Map<Seq<char>, Seq<char>>,
    plan: Seq<(Seq<char>, Seq<char>)>,
    k: Seq<char>,
    i: int,
)
    requires
        0 <= i < plan.len(),
        plan[i].1 == k,
        forall|j: int| i < j < plan.len() ==> #[trigger] plan[j].1 != k,
    ensures
        activate(active, plan).dom().contains(k),
        activate(active, plan)[k] == plan[i].0,
    decreases plan.len(),
{
    if i < plan.len() - 1 {
        let rest = plan.drop_last();
        assert(plan[plan.len() - 1].1 != k);
        assert(rest[i] == plan[i]);
        assert forall|j: int| i < j < rest.len() implies #[trigger] rest[j].1 != k by {
            assert(rest[j] == plan[j]);
        }
        lemma_activate_last(active, rest, k, i);
    }
}

/// `k` is where the link of one of `entries` stands in `bin_dir`.
pub open spec fn links_any(bin_dir: Seq<char>, entries: Seq<Seq<char>>, k: Seq<char>) -> bool {
    exists|i: int| 0 <= i < entries.len() && k == join_spec(bin_dir, #[trigger] entries[i])
}

/// The active links after the executables `entries` of the install whose
/// executables lie in `install_bin` are linked into `bin_dir`.
pub open spec fn switched(
    active: Map<Seq<char>, Seq<char>>,
    bin_dir: Seq<char>,
    install_bin: Seq<char>,
    entries: Seq<Seq<char>>,
) -> Map<Seq<char>, Seq<char>> {
    activate(active, plan_for(bin_dir, install_bin, entries))
}

/// Making the links of a plan for the executables `entries` of an install
/// makes, for each of them, the link of that name in `bin_dir` point at that
/// executable of the install, whatever stood there before.
pub proof fn lemma_switch_activates(
    active: Map<Seq<char>, Seq<char>>,
    bin_dir: Seq<char>,
    install_bin: Seq<char>,
    entries: Seq<Seq<char>>,
)
    requires
        forall|i: int| 0 <= i < entries.len() ==> is_file_name(#[trigger] entries[i]),
    ensures
        forall|i: int|
            0 <= i < entries.len() ==> switched(active, bin_dir, install_bin, entries).dom().contains(
                join_spec(bin_dir, #[trigger] entries[i]),
            ) && switched(active, bin_dir, install_bin, entries)[join_spec(bin_dir, entries[i])]
                == join_spec(install_bin, entries[i]),
{
    let plan = plan_for(bin_dir, install_bin, entries);
    let after = activate(active, plan);
    assert forall|i: int| 0 <= i < entries.len() implies after.dom().contains(
        join_spec(bin_dir, #[trigger] entries[i]),
    ) && after[join_spec(bin_dir, entries[i])] == join_spec(install_bin, entries[i]) by {
        let k = join_spec(bin_dir, entries[i]);
        assert(plan[i] == link_for(bin_dir, install_bin, entries[i]));
        lemma_last_occurrence(plan, k, i);
        let last = choose|l: int|
            i <= l < plan.len() && plan[l].1 == k && (forall|j: int|
                l < j < plan.len() ==> #[trigger] plan[j].1 != k);
        assert(plan[last] == link_for(bin_dir, install_bin, entries[last]));
        lemma_activate_last(active, plan, k, last);
        lemma_join_injective(bin_dir, entries[last], entries[i]);
    }
}

/// A switch leaves every link that names none of its executables as it stood.
pub proof fn lemma_switch_keeps_others(
    active: Map<Seq<char>, Seq<char>>,
    bin_dir: Seq<char>,
    install_bin: Seq<char>,
    entries: Seq<Seq<char>>,
    k: Seq<char>,
)
    requires
        !links_any(bin_dir, entries, k),
    ensures
        switched(active, bin_dir, install_bin, entries).dom().contains(k) == active.dom().contains(k),
        switched(active, bin_dir, install_bin, entries)[k] == active[k],
{
    let plan = plan_for(bin_dir, install_bin, entries);
    assert forall|i: int| 0 <= i < plan.len() implies #[trigger] plan[i].1 != k by {
        assert(plan[i] == link_for(bin_dir, install_bin, entries[i]));
        assert(k != join_spec(bin_dir, entries[i]));
    }
    lemma_activate_untouched(active, plan, k);
}

/// Where a key stands in a plan at `i`, one of its places from `i` on is the
/// last.
proof fn lemma_last_occurrence(plan: Seq<(Seq<char>, Seq<char>)>, k: Seq<char>, i: int)
    requires
        0 <= i < plan.len(),
        plan[i].1 == k,
    ensures
        exists|l: int|
            i <= l < plan.len() && plan[l].1 == k && (forall|j: int|
                l < j < plan.len() ==> #[trigger] plan[j].1 != k),
    decreases plan.len() - i,
{
    if exists|j: int| i < j < plan.len() && plan[j].1 == k {
        let j = choose|j: int| i < j < plan.len() && plan[j].1 == k;
        lemma_last_occurrence(plan, k, j);
    } else {
        assert(forall|j: int| i < j < plan.len() ==> #[trigger] plan[j].1 != k);
    }
}

} // verus!
