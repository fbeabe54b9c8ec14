//! Package registries, the packages they publish, and what the sources share.
pub mod hexpm;
pub mod paging;
pub mod pypi;
pub mod rubygems;

use crate::links::{spec_url_path, url_path};
use crate::paths::{lemma_two_names, path_components};
use crate::text::{after_last, chars_of, has_prefix, last_piece, skip_first, string_of};
use vstd::prelude::*;
use vstd::std_specs::cmp::PartialEqSpecImpl;
use vstd::string::*;

verus! {

/// A package registry that is watched for new releases.
#[derive(Clone, Copy, Debug, PartialEq, Eq, Hash, PartialOrd, Ord, Structural)]
pub enum SourceType {
    PyPi,
    RubyGems,
    HexPm,
}

/// Position of a registry in the order `PyPi < RubyGems < HexPm`.
pub open spec fn source_rank(s: SourceType) -> int {
    match s {
        SourceType::PyPi => 0,
        SourceType::RubyGems => 1,
        SourceType::HexPm => 2,
    }
}

/// The directory under which reports for a registry are written.
pub open spec fn spec_report_path(s: SourceType) -> Seq<char> {
    match s {
        SourceType::PyPi => "keys/pypi"@,
        SourceType::RubyGems => "keys/rubygems"@,
        SourceType::HexPm => "keys/elixir"@,
    }
}

/// The name of a registry's own folder inside `keys`.
pub open spec fn report_folder(s: SourceType) -> Seq<char> {
    match s {
        SourceType::PyPi => "pypi"@,
        SourceType::RubyGems => "rubygems"@,
        SourceType::HexPm => "elixir"@,
    }
}

/// Each registry's reports go in a folder of its own inside `keys`: its report path has
/// two components, `keys` and the registry's folder, and no two registries share one.
pub proof fn law_report_paths(a: SourceType, b: SourceType)
    ensures
        path_components(spec_report_path(a)) == seq![(4int, "keys"@), (4int, report_folder(a))],
        (spec_report_path(a) == spec_report_path(b)) <==> a == b,
{
    reveal_strlit("keys/pypi");
    reveal_strlit("keys/rubygems");
    reveal_strlit("keys/elixir");
    reveal_strlit("keys");
    reveal_strlit("pypi");
    reveal_strlit("rubygems");
    reveal_strlit("elixir");
    reveal_strlit("/");
    let keys = "keys"@;
    assert(spec_report_path(a) =~= keys + "/"@ + report_folder(a));
    assert(spec_report_path(b) =~= keys + "/"@ + report_folder(b));
    assert(forall|i: int| 0 <= i < keys.len() ==> keys[i] != '/');
    assert(forall|i: int| 0 <= i < report_folder(a).len() ==> report_folder(a)[i] != '/');
    assert(keys != seq!['.']);
    assert(keys != seq!['.', '.']);
    assert(report_folder(a) != seq!['.']);
    assert(report_folder(a) != seq!['.', '.']);
    assert("/"@ =~= seq!['/']);
    lemma_two_names(keys, report_folder(a));
    if a != b {
        assert(spec_report_path(a).len() != spec_report_path(b).len());
    }
}

impl SourceType {
    /// The directory under which reports for this registry are written:
    /// `keys/pypi`, `keys/rubygems` or `keys/elixir`.
    pub fn report_path(&self) -> (r: String)
        ensures
            r@ == spec_report_path(*self),
    {
        match self {
            SourceType::PyPi => String::from_str("keys/pypi"),
            SourceType::RubyGems => String::from_str("keys/rubygems"),
            SourceType::HexPm => String::from_str("keys/elixir"),
        }
    }
}

/// Errors the sources report when a registry's answer gives nothing to work on.
#[derive(Clone, Copy, Debug, PartialEq, Eq, Structural)]
pub enum SourceError {
    /// The changelog call did not answer with a list.
    UnknownChangelogResponse,
    /// No usable changelog entry was found.
    NoChangelogItems,
    /// No new release was found.
    NoReleases,
}

/// One release file to download and scan.
#[derive(Debug)]
pub struct PackageToProcess {
    /// The URL of the file, as `url::Url` writes it.
    pub download_url: String,
    pub name: String,
    pub version: String,
    pub source: SourceType,
}

/// A package's fields as character sequences.
pub struct PackageView {
    pub download_url: Seq<char>,
    pub name: Seq<char>,
    pub version: Seq<char>,
    pub source: SourceType,
}

impl View for PackageToProcess {
    type V = PackageView;

    open spec fn view(&self) -> PackageView {
        PackageView {
            download_url: self.download_url@,
            name: self.name@,
            version: self.version@,
            source: self.source,
        }
    }
}

impl Clone for PackageToProcess {
    fn clone(&self) -> (r: Self)
        ensures
            r == *self,
    {
        PackageToProcess {
            download_url: self.download_url.clone(),
            name: self.name.clone(),
            version: self.version.clone(),
            source: self.source,
        }
    }
}

impl PartialEq for PackageToProcess {
    fn eq(&self, other: &Self) -> (r: bool) {
        self.download_url == other.download_url && self.name == other.name && self.version
            == other.version && self.source == other.source
    }
}

impl PartialEqSpecImpl for PackageToProcess {
    open spec fn obeys_eq_spec() -> bool {
        true
    }

    open spec fn eq_spec(&self, other: &PackageToProcess) -> bool {
        self@ == other@
    }
}

impl Eq for PackageToProcess {

}

/// The URL's path starts with `/`, that is the URL has path segments.
pub open spec fn has_path_segments(url: Seq<char>) -> bool {
    &&& spec_url_path(url) is Some
    &&& has_prefix(spec_url_path(url)->0, "/"@)
}

/// The last path segment of a URL that has path segments.
pub open spec fn spec_file_name(url: Seq<char>) -> Seq<char> {
    after_last(spec_url_path(url)->0.drop_first(), '/')
}

impl PackageToProcess {
    /// A package to process from its parts.
    pub fn new(name: String, version: String, download_url: String, source: SourceType) -> (r:
        Self)
        ensures
            r.name == name,
            r.version == version,
            r.download_url == download_url,
            r.source == source,
    {
        PackageToProcess { download_url, name, version, source }
    }

    /// The last segment of the download URL's path: the released file's name.
    pub fn file_name(&self) -> (r: String)
        requires
            has_path_segments(self.download_url@),
        ensures
            r@ == spec_file_name(self.download_url@),
    {
        let path = url_path(self.download_url.as_str());
        match path {
            Some(p) => {
                proof {
                    reveal_strlit("/");
                }
                let cs = chars_of(p.as_str());
                let rest = skip_first(&cs);
                string_of(last_piece(&rest, '/').as_slice())
            },
            None => String::new(),
        }
    }

    /// `file_name` where the download URL has path segments, `None` where it has not.
    pub fn try_file_name(&self) -> (r: Option<String>)
        ensures
            r is Some == has_path_segments(self.download_url@),
            r matches Some(n) ==> n@ == spec_file_name(self.download_url@),
    {
        if self.has_path_segments() {
            Some(self.file_name())
        } else {
            None
        }
    }

    /// Whether the download URL has path segments (its path starts with `/`).
    pub fn has_path_segments(&self) -> (r: bool)
        ensures
            r == has_path_segments(self.download_url@),
    {
        proof {
            reveal_strlit("/");
        }
        match url_path(self.download_url.as_str()) {
            Some(p) => {
                let cs = chars_of(p.as_str());
                if cs.len() > 0 && cs[0] == '/' {
                    assert(cs@.take(1) =~= "/"@);
                    true
                } else {
                    assert(cs@.len() == 0 || cs@.take(1)[0] != "/"@[0]);
                    false
                }
            },
            None => false,
        }
    }
}

/// How many packages a source has looked at.
#[derive(Debug, Default)]
pub struct SourceStats {
    packages_searched: u64,
}

impl SourceStats {
    /// Statistics with nothing counted yet.
    pub fn new() -> (r: Self)
        ensures
            r.packages_searched() == 0,
    {
        SourceStats { packages_searched: 0 }
    }

    /// Statistics that have counted `packages_searched` packages.
    pub fn with_count(packages_searched: u64) -> (r: Self)
        ensures
            r.packages_searched() == packages_searched,
    {
        SourceStats { packages_searched }
    }

    /// The number of packages counted so far.
    #[verifier::when_used_as_spec(spec_packages_searched)]
    pub fn packages_searched(&self) -> (r: u64)
        ensures
            r == self.spec_packages_searched(),
    {
        self.packages_searched
    }

    pub closed spec fn spec_packages_searched(&self) -> u64 {
        self.packages_searched
    }

    /// Counts `count` more searched packages.
    pub fn add_packages_searched(&mut self, count: u64)
        requires
            old(self).packages_searched() + count <= u64::MAX,
        ensures
            final(self).packages_searched() == old(self).packages_searched() + count,
    {
        self.packages_searched = self.packages_searched + count;
    }
}

/// Keeps the first occurrence of each registry, in order.
pub open spec fn spec_unique_sources(s: Seq<SourceType>) -> Seq<SourceType>
    decreases s.len(),
{
    if s.len() == 0 {
        s
    } else {
        let r = spec_unique_sources(s.drop_last());
        if r.contains(s.last()) {
            r
        } else {
            r.push(s.last())
        }
    }
}

/// Each registry once, in the order of first occurrence.
pub fn unique_sources(sources: &Vec<SourceType>) -> (r: Vec<SourceType>)
    ensures
        r@ == spec_unique_sources(sources@),
{
    let mut r: Vec<SourceType> = Vec::new();
    let mut i: usize = 0;
    while i < sources.len()
        invariant
            i <= sources@.len(),
            r@ == spec_unique_sources(sources@.take(i as int)),
        decreases sources@.len() - i,
    {
        let s = sources[i];
        let mut found = false;
        let mut j: usize = 0;
        while j < r.len()
            invariant
                j <= r@.len(),
                found == (exists|k: int| 0 <= k < j && r@[k] == s),
            decreases r@.len() - j,
        {
            if r[j] == s {
                found = true;
            }
            j = j + 1;
        }
        assert(sources@.take(i as int + 1).drop_last() =~= sources@.take(i as int));
        if !found {
            r.push(s);
        } else {
            proof {
                let k = choose|k: int| 0 <= k < r@.len() && r@[k] == s;
                assert(r@[k] == s);
            }
        }
        i = i + 1;
    }
    assert(sources@.take(sources@.len() as int) =~= sources@);
    r
}

/// Every registry comes out once, and exactly the registries that went in.
pub proof fn lemma_unique_sources(s: Seq<SourceType>)
    ensures
        spec_unique_sources(s).no_duplicates(),
        forall|x: SourceType| spec_unique_sources(s).contains(x) <==> s.contains(x),
    decreases s.len(),
{
    if s.len() > 0 {
        let d = s.drop_last();
        let l = s.last();
        lemma_unique_sources(d);
        let r = spec_unique_sources(d);
        assert forall|x: SourceType| s.contains(x) <==> (d.contains(x) || x == l) by {
            if s.contains(x) && x != l {
                let k = choose|k: int| 0 <= k < s.len() && s[k] == x;
                assert(d[k] == x);
            }
            if d.contains(x) {
                let k = choose|k: int| 0 <= k < d.len() && d[k] == x;
                assert(s[k] == x);
            }
            if x == l {
                assert(s[s.len() - 1] == x);
            }
        }
        if !r.contains(l) {
            let rp = r.push(l);
            assert forall|x: SourceType| rp.contains(x) <==> (r.contains(x) || x == l) by {
                if rp.contains(x) && x != l {
                    let k = choose|k: int| 0 <= k < rp.len() && rp[k] == x;
                    assert(r[k] == x);
                }
                if r.contains(x) {
                    let k = choose|k: int| 0 <= k < r.len() && r[k] == x;
                    assert(rp[k] == x);
                }
                if x == l {
                    assert(rp[r.len() as int] == x);
                }
            }
            assert forall|i: int, j: int|
                0 <= i < rp.len() && 0 <= j < rp.len() && i != j implies rp[i] != rp[j] by {
                if i < r.len() && j < r.len() {
                } else if i == r.len() {
                    assert(r[j] == rp[j]);
                } else {
                    assert(r[i] == rp[i]);
                }
            }
        }
    }
}

} // verus!
