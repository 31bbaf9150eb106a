use vstd::prelude::*;

verus! {

/// One package of the registry with the versions installed of it.
pub struct PackageVersions {
    /// The package's name.
    pub name: String,
    /// Its installed versions.
    pub versions: Vec<String>,
}

impl View for PackageVersions {
    type V = (Seq<char>, Seq<Seq<char>>);

    open spec fn view(&self) -> (Seq<char>, Seq<Seq<char>>) {
        (self.name@, self.versions@.map_values(|v: String| v@))
    }
}

/// The line that heads a package: its name and a colon.
pub open spec fn package_line(name: Seq<char>) -> Seq<char> {
    name + ":"@
}

/// The line of one version under its package.
pub open spec fn version_line(version: Seq<char>) -> Seq<char> {
    "  - "@ + version
}

/// The lines that report one package: its own, then one for each version.
pub open spec fn package_lines(p: (Seq<char>, Seq<Seq<char>>)) -> Seq<Seq<char>> {
    seq![package_line(p.0)] + p.1.map_values(|v: Seq<char>| version_line(v))
}

/// The lines that report every package in turn.
pub open spec fn listing_lines(packages: Seq<(Seq<char>, Seq<Seq<char>>)>) -> Seq<Seq<char>>
    decreases packages.len(),
{
    if packages.len() == 0 {
        Seq::empty()
    } else {
        listing_lines(packages.drop_last()) + package_lines(packages.last())
    }
}

/// The views of `packages`.
pub open spec fn packages_view(packages: Seq<PackageVersions>) -> Seq<(Seq<char>, Seq<Seq<char>>)> {
    packages.map_values(|p: PackageVersions| p@)
}

/// The lines of the registry's listing: each package's name, then its
/// versions, one to a line and indented.
pub fn list_lines(packages: &Vec<PackageVersions>) -> (r: Vec<String>)
    ensures
        r@.map_values(|l: String| l@) == listing_lines(packages_view(packages@)),
{
    let ghost all = packages_view(packages@);
    let mut lines: Vec<String> = Vec::new();
    let mut i: usize = 0;
    while i < packages.len()
        invariant
            i <= packages@.len(),
            all == packages_view(packages@),
            lines@.map_values(|l: String| l@) == listing_lines(all.subrange(0, i as int)),
        decreases packages@.len() - i,
    {
        let p = &packages[i];
        let ghost before = lines@.map_values(|l: String| l@);
        let mut head = p.name.clone();
        head.append(":");
        lines.push(head);
        let ghost vs = p@.1;
        let mut j: usize = 0;
        while j < p.versions.len()
            invariant
                i < packages@.len(),
                p == packages@[i as int],
                vs == p@.1,
                j <= p.versions@.len(),
                lines@.map_values(|l: String| l@) == before + seq![package_line(p.name@)]
                    + vs.subrange(0, j as int).map_values(|v: Seq<char>| version_line(v)),
            decreases p.versions@.len() - j,
        {
            let mut line = String::from_str("  - ");
            line.append(p.versions[j].as_str());
            let ghost prev = lines@.map_values(|l: String| l@);
            lines.push(line);
            proof {
                assert(vs[j as int] == p.versions@[j as int]@);
                assert(lines@.map_values(|l: String| l@) =~= prev.push(line@));
                assert(vs.subrange(0, j + 1).map_values(|v: Seq<char>| version_line(v))
                    =~= vs.subrange(0, j as int).map_values(|v: Seq<char>| version_line(v)).push(
                    version_line(vs[j as int]),
                ));
                assert(lines@.map_values(|l: String| l@) =~= before + seq![package_line(p.name@)]
                    + vs.subrange(0, j + 1).map_values(|v: Seq<char>| version_line(v)));
            }
            j = j + 1;
        }
        proof {
            assert(vs.subrange(0, j as int) =~= vs);
            assert(all.subrange(0, i + 1).drop_last() =~= all.subrange(0, i as int));
            assert(all[i as int] == p@);
            assert(lines@.map_values(|l: String| l@) =~= listing_lines(all.subrange(0, i + 1)));
        }
        i = i + 1;
    }
    proof {
        assert(all.subrange(0, i as int) =~= all);
    }
    lines
}

} // verus!
