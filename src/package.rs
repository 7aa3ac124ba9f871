//! The index of tracked packages: aliases for `owner/repo` names and the
//! latest release seen for each package.
use crate::name_map::NameMap;
use crate::text::same_text;
use vstd::prelude::*;

verus! {

/// A package hosted as `owner/repo`.
#[derive(Debug, Clone)]
pub struct Package {
    pub owner: String,
    pub repo: String,
}

impl View for Package {
    type V = (Seq<char>, Seq<char>);

    open spec fn view(&self) -> (Seq<char>, Seq<char>) {
        (self.owner@, self.repo@)
    }
}

/// The name `owner/repo` of a package.
pub open spec fn full_name(p: (Seq<char>, Seq<char>)) -> Seq<char> {
    p.0 + seq!['/'] + p.1
}

impl Package {
    /// The package's name, `owner/repo`.
    pub fn to_string(&self) -> (r: String)
        ensures
            r@ == full_name(self@),
    {
        proof {
            reveal_strlit("/");
        }
        self.owner.clone().concat("/").concat(self.repo.as_str())
    }
}

/// Why a lookup in the index failed; each carries the name looked up.
#[derive(Debug, Clone, PartialEq, Eq)]
pub enum IndexError {
    /// A name without `/` that is no known alias.
    AliasNotFound(String),
    /// A package with no release recorded.
    ReleaseNotFound(String),
    /// An update for a package the index does not track.
    PackageNotFound(String),
}

/// Aliases of packages and their latest releases.
#[derive(Debug)]
pub struct PackageIndex {
    /// Alias (the repository name) to package.
    pub aliases: NameMap<Package>,
    /// `owner/repo` to the tag of its latest release.
    pub releases: NameMap<String>,
}

/// The package a name stands for: a name with `/` is already `owner/repo`,
/// another is looked up among the aliases.
pub open spec fn package_name_model(
    aliases: Map<Seq<char>, (Seq<char>, Seq<char>)>,
    name: Seq<char>,
) -> Option<Seq<char>> {
    if name.contains('/') {
        Some(name)
    } else if aliases.contains_key(name) {
        Some(full_name(aliases[name]))
    } else {
        None
    }
}

/// Whether `s` holds the character `c`.
pub fn has_char(s: &str, c: char) -> (r: bool)
    ensures
        r == s@.contains(c),
{
    let n = s.unicode_len();
    let mut i: usize = 0;
    while i < n
        invariant
            n == s@.len(),
            i <= n,
            forall|j: int| 0 <= j < i ==> s@[j] != c,
        decreases n - i,
    {
        if s.get_char(i) == c {
            return true;
        }
        i = i + 1;
    }
    false
}

impl PackageIndex {
    pub open spec fn wf(&self) -> bool {
        self.aliases.wf() && self.releases.wf()
    }

    /// An index with no packages.
    pub fn new() -> (r: Self)
        ensures
            r.wf(),
            r.aliases@ == Map::<Seq<char>, (Seq<char>, Seq<char>)>::empty(),
            r.releases@ == Map::<Seq<char>, Seq<char>>::empty(),
    {
        PackageIndex { aliases: NameMap::new(), releases: NameMap::new() }
    }

    /// The `owner/repo` name that `name` stands for.
    pub fn get_pkg_name(&self, name: &str) -> (r: Result<String, IndexError>)
        ensures
            r is Ok <==> package_name_model(self.aliases@, name@) is Some,
            r is Ok ==> package_name_model(self.aliases@, name@) == Some(r->Ok_0@),
            r is Err ==> r->Err_0 is AliasNotFound && r->Err_0->AliasNotFound_0@ == name@,
    {
        if has_char(name, '/') {
            return Ok(String::from_str(name));
        }
        match self.aliases.get(name) {
            Some(p) => Ok(p.to_string()),
            None => Err(IndexError::AliasNotFound(String::from_str(name))),
        }
    }

    /// The latest release recorded for the package that `name` stands for.
    pub fn get_release(&self, name: &str) -> (r: Result<&str, IndexError>)
        ensures
            package_name_model(self.aliases@, name@) is None ==> r is Err && r->Err_0 is AliasNotFound,
            package_name_model(self.aliases@, name@) matches Some(full) ==> {
                &&& r is Ok <==> self.releases@.contains_key(full)
                &&& r is Ok ==> r->Ok_0@ == self.releases@[full]
                &&& r is Err ==> r->Err_0 is ReleaseNotFound && r->Err_0->ReleaseNotFound_0@ == full
            },
    {
        let full = match self.get_pkg_name(name) {
            Ok(f) => f,
            Err(e) => {
                return Err(e);
            },
        };
        match self.releases.get(full.as_str()) {
            Some(tag) => Ok(tag.as_str()),
            None => Err(IndexError::ReleaseNotFound(full)),
        }
    }

    /// Records a package with the tag of its latest release: its repository
    /// name becomes an alias for it.
    pub fn add_repo(&mut self, owner: &str, repo: &str, tag: String)
        requires
            old(self).wf(),
        ensures
            final(self).wf(),
            final(self).aliases@ == old(self).aliases@.insert(repo@, (owner@, repo@)),
            final(self).releases@ == old(self).releases@.insert(full_name((owner@, repo@)), tag@),
    {
        let package = Package { owner: String::from_str(owner), repo: String::from_str(repo) };
        let full = package.to_string();
        self.aliases.insert(String::from_str(repo), package);
        self.releases.insert(full, tag);
    }

    /// Records `tag` as the latest release of the tracked package
    /// `pkg_name`. Returns the tag it replaces, or `None` when it is the same.
    pub fn update_release(&mut self, pkg_name: &str, tag: String) -> (r: Result<
        Option<String>,
        IndexError,
    >)
        requires
            old(self).wf(),
        ensures
            final(self).wf(),
            final(self).aliases@ == old(self).aliases@,
            r is Err <==> !old(self).releases@.contains_key(pkg_name@),
            r is Err ==> r->Err_0 is PackageNotFound && r->Err_0->PackageNotFound_0@ == pkg_name@
                && final(self).releases@ == old(self).releases@,
            r matches Ok(None) ==> old(self).releases@[pkg_name@] == tag@ && final(self).releases@
                == old(self).releases@,
            r matches Ok(Some(previous)) ==> previous@ == old(self).releases@[pkg_name@]
                && previous@ != tag@ && final(self).releases@ == old(self).releases@.insert(
                pkg_name@,
                tag@,
            ),
    {
        let previous = match self.releases.get(pkg_name) {
            Some(t) => t.clone(),
            None => {
                return Err(IndexError::PackageNotFound(String::from_str(pkg_name)));
            },
        };
        if same_text(previous.as_str(), tag.as_str()) {
            return Ok(None);
        }
        self.releases.insert(String::from_str(pkg_name), tag);
        Ok(Some(previous))
    }
}

} // verus!
