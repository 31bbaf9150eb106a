use vstd::prelude::*;

use crate::error::SwitchError;
use crate::locator::{
    contains, contains_within, is_first_entry_with, is_path_list_sep, lemma_no_occurrence_across,
    no_list_sep,
};
use crate::links::{
    lemma_join_cancel, lemma_join_file_name, lemma_join_injective, lemma_switch_activates,
    link_for, plan_for, switched, Link,
};
use crate::path::{is_file_name, join, join_spec};
use crate::specifier::{has_digit, is_digit, is_first_at, parse_spec};

verus! {

/// What marks the search-path entry that holds the installed executables.
pub const BIN_MARKER: &'static str = ".cargo/bin";

/// The name of the registry directory inside the executables' directory.
pub const REGISTRY_DIR: &'static str = "cargo-switch-registry";

/// The directory inside a versioned install that holds its executables.
pub const INSTALL_BIN_DIR: &'static str = "bin";

/// The marker has no search-path separator in it.
pub proof fn lemma_bin_marker_is_plain()
    ensures
        no_list_sep(BIN_MARKER@),
{
    reveal_strlit(".cargo/bin");
}

/// `d` is the first entry of the search path `path_var` that holds the marker.
pub open spec fn is_bin_dir(path_var: Seq<char>, d: Seq<char>) -> bool {
    exists|a: int, b: int|
        is_first_entry_with(path_var, BIN_MARKER@, a, b) && d == #[trigger] path_var.subrange(a, b)
}

/// Finds the versions of packages under a registry directory and makes one
/// version's executables the active ones.
pub struct Switcher {
    /// The directory on the search path that holds the active executables.
    pub bin_dir: String,
    /// The registry directory under `bin_dir` that holds every installed version.
    pub registry: String,
}

/// The versioned install that `package` names under `registry`:
/// `registry/name/version`.
pub open spec fn target_of(registry: Seq<char>, package: Seq<char>) -> Option<Seq<char>> {
    match parse_spec(package) {
        Some((name, version)) => Some(join_spec(join_spec(registry, name), version)),
        None => None,
    }
}

/// The directory that holds the executables of the install that `package`
/// names under `registry`.
pub open spec fn install_bin_of(registry: Seq<char>, package: Seq<char>) -> Seq<char> {
    join_spec(target_of(registry, package)->Some_0, INSTALL_BIN_DIR@)
}

/// The names of `entries`.
pub open spec fn names_of(entries: Seq<String>) -> Seq<Seq<char>> {
    entries.map_values(|e: String| e@)
}

/// The command line that installs a package into its own root.
pub struct InstallCommand {
    /// The program to run.
    pub program: String,
    /// Its arguments.
    pub args: Vec<String>,
}

impl Switcher {
    /// The registry lies directly in the executables' directory.
    pub open spec fn well_formed(&self) -> bool {
        self.registry@ == join_spec(self.bin_dir@, REGISTRY_DIR@)
    }

    /// Sets the switcher up from the search path `path_var`: its executables'
    /// directory is the first entry that holds the marker, its registry the
    /// directory of that name inside it.
    pub fn new(path_var: &str) -> (r: Result<Switcher, SwitchError>)
        ensures
            r is Ok <==> contains(path_var@, BIN_MARKER@),
            match r {
                Ok(sw) => sw.well_formed() && is_bin_dir(path_var@, sw.bin_dir@),
                Err(e) => e is BinDirNotFound,
            },
    {
        let bin_dir = Self::get_cargo_bin(path_var)?;
        let registry = join(bin_dir.as_str(), REGISTRY_DIR);
        Ok(Switcher { bin_dir, registry })
    }

    /// The directory that the install of `package` goes to.
    pub fn build_target_path(&self, package: &str) -> (r: Result<String, SwitchError>)
        ensures
            match target_of(self.registry@, package@) {
                Some(t) => r is Ok && r->Ok_0@ == t,
                None => r is Err && r->Err_0 is InvalidSpecifier,
            },
    {
        match Self::get_version_tag(package) {
            Some((name, version)) => {
                let dir = join(self.registry.as_str(), name);
                Ok(join(dir.as_str(), version))
            },
            None => Err(SwitchError::InvalidSpecifier),
        }
    }

    /// The command that installs `package` into its versioned directory.
    pub fn install_package(&self, package: &str) -> (r: Result<InstallCommand, SwitchError>)
        ensures
            match target_of(self.registry@, package@) {
                Some(t) => r is Ok && r->Ok_0.program@ == "cargo"@ && r->Ok_0.args@.len() == 4
                    && r->Ok_0.args@[0]@ == "install"@ && r->Ok_0.args@[1]@ == package@
                    && r->Ok_0.args@[2]@ == "--root"@ && r->Ok_0.args@[3]@ == t,
                None => r is Err && r->Err_0 is InvalidSpecifier,
            },
    {
        let target = self.build_target_path(package)?;
        let mut args: Vec<String> = Vec::new();
        args.push(String::from_str("install"));
        args.push(package.to_owned());
        args.push(String::from_str("--root"));
        args.push(target);
        Ok(InstallCommand { program: String::from_str("cargo"), args })
    }

    /// Finds, in the search path `path_var`, the first entry that holds the
    /// marker of the executables' directory.
    pub fn get_cargo_bin(path_var: &str) -> (r: Result<String, SwitchError>)
        ensures
            r is Ok <==> contains(path_var@, BIN_MARKER@),
            match r {
                Ok(d) => is_bin_dir(path_var@, d@),
                Err(e) => e is BinDirNotFound,
            },
    {
        let n = path_var.unicode_len();
        let ghost s = path_var@;
        let mut start: usize = 0;
        let mut i: usize = 0;
        proof {
            lemma_bin_marker_is_plain();
            assert(!contains(s.subrange(0, 0), BIN_MARKER@)) by {
                assert forall|p: int| !crate::locator::occurs_at(s.subrange(0, 0), BIN_MARKER@, p) by {
                    reveal_strlit(".cargo/bin");
                }
            }
        }
        while i < n
            invariant
                start <= i <= n,
                n == s.len(),
                s == path_var@,
                start == 0 || is_path_list_sep(s[start - 1]),
                no_list_sep(s.subrange(start as int, i as int)),
                !contains(s.subrange(0, start as int), BIN_MARKER@),
                no_list_sep(BIN_MARKER@),
            decreases n - i,
        {
            if path_var.get_char(i) == ':' {
                if contains_within(path_var, start, i, BIN_MARKER) {
                    let d = path_var.substring_char(start, i).to_owned();
                    proof {
                        assert(is_first_entry_with(s, BIN_MARKER@, start as int, i as int));
                        crate::locator::lemma_contains_sub(s, BIN_MARKER@, start as int, i as int);
                    }
                    return Ok(d);
                }
                proof {
                    lemma_no_occurrence_across(s, BIN_MARKER@, start as int, i as int);
                }
                start = i + 1;
                proof {
                    assert(s.subrange(start as int, start as int) =~= Seq::<char>::empty());
                }
            } else {
                proof {
                    assert forall|k: int| 0 <= k < i + 1 - start implies !is_path_list_sep(
                        #[trigger] s.subrange(start as int, i + 1)[k],
                    ) by {
                        assert(s.subrange(start as int, i + 1)[k] == s[start + k]);
                        if k < i - start {
                            assert(s.subrange(start as int, i as int)[k] == s[start + k]);
                        }
                    }
                }
            }
            i = i + 1;
        }
        if contains_within(path_var, start, n, BIN_MARKER) {
            let d = path_var.substring_char(start, n).to_owned();
            proof {
                assert(is_first_entry_with(s, BIN_MARKER@, start as int, n as int));
                crate::locator::lemma_contains_sub(s, BIN_MARKER@, start as int, n as int);
            }
            return Ok(d);
        }
        proof {
            lemma_no_occurrence_across(s, BIN_MARKER@, start as int, n as int);
            assert(s.subrange(0, n as int) =~= s);
        }
        Err(SwitchError::BinDirNotFound)
    }

    /// Splits a `name@version` specifier at its first `@`, checking that the
    /// name is not empty and that the version holds a digit.
    pub fn get_version_tag(package: &str) -> (r: Option<(&str, &str)>)
        ensures
            match r {
                Some((name, version)) => parse_spec(package@) == Some((name@, version@)),
                None => parse_spec(package@) is None,
            },
    {
        let n = package.unicode_len();
        let mut i: usize = 0;
        while i < n && package.get_char(i) != '@'
            invariant
                i <= n,
                n == package@.len(),
                forall|k: int| 0 <= k < i ==> package@[k] != '@',
            decreases n - i,
        {
            i = i + 1;
        }
        if i == n {
            proof {
                assert forall|k: int| !is_first_at(package@, k) by {
                    if 0 <= k < n {
                        assert(package@[k] != '@');
                    }
                }
            }
            return None;
        }
        proof {
            assert forall|k: int| 0 <= k < i implies #[trigger] package@.subrange(0, i as int)[k]
                != '@' by {
                assert(package@.subrange(0, i as int)[k] == package@[k]);
            }
            assert(is_first_at(package@, i as int));
            let k = choose|k: int| is_first_at(package@, k);
            crate::specifier::lemma_first_at_unique(package@, i as int, k);
        }
        let name = package.substring_char(0, i);
        let version = package.substring_char(i + 1, n);
        let vn = i + 1;
        let mut j: usize = vn;
        let mut found = false;
        while j < n
            invariant
                vn <= j <= n,
                n == package@.len(),
                version@ == package@.subrange(vn as int, n as int),
                found <==> exists|k: int| vn <= k < j && is_digit(#[trigger] package@[k]),
            decreases n - j,
        {
            let c = package.get_char(j);
            if '0' <= c && c <= '9' {
                found = true;
            }
            j = j + 1;
        }
        proof {
            if found {
                let k = choose|k: int| vn <= k < j && is_digit(#[trigger] package@[k]);
                assert(version@[k - vn] == package@[k]);
            }
            if has_digit(version@) {
                let k = choose|k: int| 0 <= k < version@.len() && is_digit(#[trigger] version@[k]);
                assert(version@[k] == package@[k + vn]);
            }
        }
        if i >= 1 && found {
            Some((name, version))
        } else {
            None
        }
    }

    /// The links that make the executables `entries` of the install that
    /// `package` names the active ones: for each, in order, the link of that
    /// name in the executables' directory, pointing at the install's own.
    pub fn switch_package(&self, package: &str, entries: &Vec<String>) -> (r: Result<
        Vec<Link>,
        SwitchError,
    >)
        ensures
            match target_of(self.registry@, package@) {
                Some(t) => r is Ok && r->Ok_0@.map_values(|l: Link| l@) == plan_for(
                    self.bin_dir@,
                    install_bin_of(self.registry@, package@),
                    names_of(entries@),
                ),
                None => r is Err && r->Err_0 is InvalidSpecifier,
            },
    {
        let target = self.build_target_path(package)?;
        let install_bin = join(target.as_str(), INSTALL_BIN_DIR);
        let ghost names = names_of(entries@);
        let mut links: Vec<Link> = Vec::new();
        let mut i: usize = 0;
        while i < entries.len()
            invariant
                i <= entries@.len(),
                names == names_of(entries@),
                install_bin@ == install_bin_of(self.registry@, package@),
                links@.len() == i,
                forall|j: int| 0 <= j < i ==> #[trigger] links@[j]@ == link_for(
                    self.bin_dir@,
                    install_bin@,
                    names[j],
                ),
            decreases entries@.len() - i,
        {
            let source = join(install_bin.as_str(), entries[i].as_str());
            let link = join(self.bin_dir.as_str(), entries[i].as_str());
            links.push(Link { source, link });
            i = i + 1;
        }
        proof {
            assert(links@.map_values(|l: Link| l@) =~= plan_for(self.bin_dir@, install_bin@, names));
        }
        Ok(links)
    }
}

/// Switching to one version of a package and then to another version of it
/// that has an executable of the same name moves that executable's link from
/// the first install to the second: it points at the second install's
/// executable, which is another file than the first one's.
pub proof fn lemma_switch_between_versions(
    active: Map<Seq<char>, Seq<char>>,
    sw: Switcher,
    first: Seq<char>,
    second: Seq<char>,
    name: Seq<char>,
    v1: Seq<char>,
    v2: Seq<char>,
    entries1: Seq<Seq<char>>,
    entries2: Seq<Seq<char>>,
    e: Seq<char>,
)
    requires
        parse_spec(first) == Some((name, v1)),
        parse_spec(second) == Some((name, v2)),
        v1 != v2,
        is_file_name(v1),
        is_file_name(v2),
        forall|i: int| 0 <= i < entries1.len() ==> is_file_name(#[trigger] entries1[i]),
        forall|i: int| 0 <= i < entries2.len() ==> is_file_name(#[trigger] entries2[i]),
        entries1.contains(e),
        entries2.contains(e),
    ensures
        ({
            let ib1 = install_bin_of(sw.registry@, first);
            let ib2 = install_bin_of(sw.registry@, second);
            let after1 = switched(active, sw.bin_dir@, ib1, entries1);
            let after2 = switched(after1, sw.bin_dir@, ib2, entries2);
            let k = join_spec(sw.bin_dir@, e);
            &&& after1.dom().contains(k) && after1[k] == join_spec(ib1, e)
            &&& after2.dom().contains(k) && after2[k] == join_spec(ib2, e)
            &&& after2[k] != after1[k]
        }),
{
    let ib1 = install_bin_of(sw.registry@, first);
    let ib2 = install_bin_of(sw.registry@, second);
    let after1 = switched(active, sw.bin_dir@, ib1, entries1);
    lemma_switch_activates(active, sw.bin_dir@, ib1, entries1);
    lemma_switch_activates(after1, sw.bin_dir@, ib2, entries2);
    let i1 = choose|i: int| 0 <= i < entries1.len() && entries1[i] == e;
    let i2 = choose|i: int| 0 <= i < entries2.len() && entries2[i] == e;
    assert(entries1[i1] == e);
    assert(entries2[i2] == e);
    let x = join_spec(sw.registry@, name);
    let y1 = join_spec(x, v1);
    let y2 = join_spec(x, v2);
    reveal_strlit("bin");
    assert(is_file_name(INSTALL_BIN_DIR@));
    lemma_join_file_name(x, v1);
    lemma_join_file_name(x, v2);
    lemma_join_file_name(y1, INSTALL_BIN_DIR@);
    lemma_join_file_name(y2, INSTALL_BIN_DIR@);
    if join_spec(ib1, e) == join_spec(ib2, e) {
        lemma_join_cancel(ib1, ib2, e);
        lemma_join_cancel(y1, y2, INSTALL_BIN_DIR@);
        lemma_join_injective(x, v1, v2);
    }
}

} // verus!
