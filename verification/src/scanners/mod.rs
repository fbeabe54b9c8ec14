//! What the scanner finds in a downloaded package.
pub mod ripgrep;

use crate::scanners::ripgrep::{RipGrepMatch, RipGrepMatchView};
use crate::sources::{PackageToProcess, PackageView};
use crate::text::{chars_of, has_prefix, string_of};
use vstd::prelude::*;

verus! {

/// A package that was downloaded and unpacked into `directory`.
#[derive(Debug)]
pub struct DownloadedPackage {
    pub package: PackageToProcess,
    /// The directory the package was unpacked into.
    pub directory: String,
}

/// A key pair found in a downloaded package.
#[derive(Debug)]
pub struct ScannerMatch {
    pub downloaded_package: DownloadedPackage,
    /// The line where the access key id was found.
    pub rg_match: RipGrepMatch,
    pub access_key: String,
    pub secret_key: String,
}

/// A scanner match's fields as character sequences.
pub struct ScannerMatchView {
    pub package: PackageView,
    pub directory: Seq<char>,
    pub rg_match: RipGrepMatchView,
    pub access_key: Seq<char>,
    pub secret_key: Seq<char>,
}

impl View for ScannerMatch {
    type V = ScannerMatchView;

    open spec fn view(&self) -> ScannerMatchView {
        ScannerMatchView {
            package: self.downloaded_package.package@,
            directory: self.downloaded_package.directory@,
            rg_match: self.rg_match@,
            access_key: self.access_key@,
            secret_key: self.secret_key@,
        }
    }
}

impl Clone for DownloadedPackage {
    fn clone(&self) -> (r: Self)
        ensures
            r == *self,
    {
        DownloadedPackage { package: self.package.clone(), directory: self.directory.clone() }
    }
}

impl Clone for ScannerMatch {
    fn clone(&self) -> (r: Self)
        ensures
            r == *self,
    {
        ScannerMatch {
            downloaded_package: self.downloaded_package.clone(),
            rg_match: self.rg_match.clone(),
            access_key: self.access_key.clone(),
            secret_key: self.secret_key.clone(),
        }
    }
}

/// The path of a found file relative to the directory the package was unpacked into:
/// the part after `directory/`, or the whole path where it does not start so.
pub open spec fn spec_relative_path(path: Seq<char>, directory: Seq<char>) -> Seq<char> {
    let prefix = directory.push('/');
    if has_prefix(path, prefix) {
        path.skip(prefix.len() as int)
    } else {
        path
    }
}

impl ScannerMatch {
    /// The path of the file holding the key, relative to the unpacked package.
    pub fn relative_path(&self) -> (r: String)
        ensures
            r@ == spec_relative_path(self.rg_match.path@, self.downloaded_package.directory@),
    {
        let path = chars_of(self.rg_match.path.as_str());
        let mut prefix = chars_of(self.downloaded_package.directory.as_str());
        prefix.push('/');
        let mut same = prefix.len() <= path.len();
        let mut i: usize = 0;
        while same && i < prefix.len()
            invariant
                i <= prefix@.len(),
                same ==> prefix@.len() <= path@.len(),
                same ==> prefix@.take(i as int) == path@.take(i as int),
                !same ==> !has_prefix(path@, prefix@),
            decreases prefix@.len() - i,
        {
            if prefix[i] != path[i] {
                same = false;
                proof {
                    if has_prefix(path@, prefix@) {
                        assert(path@.take(prefix@.len() as int)[i as int] == path@[i as int]);
                    }
                }
            } else {
                assert(prefix@.take(i as int + 1) =~= prefix@.take(i as int).push(prefix@[i as int]));
                assert(path@.take(i as int + 1) =~= path@.take(i as int).push(path@[i as int]));
            }
            i = i + 1;
        }
        if same {
            assert(prefix@.take(prefix@.len() as int) =~= prefix@);
            let mut rest: Vec<char> = Vec::new();
            let mut j: usize = prefix.len();
            while j < path.len()
                invariant
                    prefix@.len() <= j <= path@.len(),
                    rest@ == path@.subrange(prefix@.len() as int, j as int),
                decreases path@.len() - j,
            {
                rest.push(path[j]);
                assert(path@.subrange(prefix@.len() as int, j as int + 1) =~= path@.subrange(
                    prefix@.len() as int,
                    j as int,
                ).push(path@[j as int]));
                j = j + 1;
            }
            assert(rest@ =~= path@.skip(prefix@.len() as int));
            string_of(rest.as_slice())
        } else {
            proof {
                if prefix@.len() > path@.len() {
                    assert(!has_prefix(path@, prefix@));
                }
            }
            string_of(path.as_slice())
        }
    }
}

/// What `str::trim` gives for a text: the text without its leading and trailing
/// whitespace.
pub uninterp spec fn spec_trim(s: Seq<char>) -> Seq<char>;

/// std's `str::trim`, copied into a `String`. The contract only ties the result to the
/// name `spec_trim` of the text; which characters count as whitespace is not stated.
#[verifier::external_body]
fn trimmed(s: &String) -> (r: String)
    ensures
        r@ == spec_trim(s@),
{
    s.trim().to_string()
}

/// The match of access key `key` with secret `secret`, both found in the package
/// unpacked into `directory`.
pub open spec fn pair_view(
    package: PackageView,
    directory: Seq<char>,
    key: RipGrepMatchView,
    secret: RipGrepMatchView,
) -> ScannerMatchView {
    ScannerMatchView {
        package,
        directory,
        rg_match: key,
        access_key: spec_trim(key.lines),
        secret_key: spec_trim(secret.lines),
    }
}

/// The pairs of access key `key` with each secret found in the same file, in the order of
/// the secrets.
pub open spec fn secrets_for(
    package: PackageView,
    directory: Seq<char>,
    key: RipGrepMatchView,
    secrets: Seq<RipGrepMatchView>,
) -> Seq<ScannerMatchView>
    decreases secrets.len(),
{
    if secrets.len() == 0 {
        Seq::empty()
    } else {
        let rest = secrets_for(package, directory, key, secrets.drop_last());
        if secrets.last().path == key.path {
            rest.push(pair_view(package, directory, key, secrets.last()))
        } else {
            rest
        }
    }
}

/// Every access key paired with every secret of its file: key by key, and for each key
/// secret by secret.
pub open spec fn spec_key_pairs(
    package: PackageView,
    directory: Seq<char>,
    keys: Seq<RipGrepMatchView>,
    secrets: Seq<RipGrepMatchView>,
) -> Seq<ScannerMatchView>
    decreases keys.len(),
{
    if keys.len() == 0 {
        Seq::empty()
    } else {
        spec_key_pairs(package, directory, keys.drop_last(), secrets) + secrets_for(
            package,
            directory,
            keys.last(),
            secrets,
        )
    }
}

/// Pairs each access key id ripgrep found in a downloaded package with each
/// secret-key-shaped text found in the same file; both are taken with surrounding
/// whitespace trimmed.
pub fn pair_keys(
    downloaded: &DownloadedPackage,
    keys: &Vec<RipGrepMatch>,
    secrets: &Vec<RipGrepMatch>,
) -> (r: Vec<ScannerMatch>)
    ensures
        r@.map_values(|m: ScannerMatch| m@) == spec_key_pairs(
            downloaded.package@,
            downloaded.directory@,
            keys@.map_values(|k: RipGrepMatch| k@),
            secrets@.map_values(|k: RipGrepMatch| k@),
        ),
{
    let ghost pkg = downloaded.package@;
    let ghost dir = downloaded.directory@;
    let ghost kv = keys@.map_values(|k: RipGrepMatch| k@);
    let ghost sv = secrets@.map_values(|k: RipGrepMatch| k@);
    let mut found: Vec<ScannerMatch> = Vec::new();
    let mut i: usize = 0;
    assert(kv.take(0) =~= Seq::<RipGrepMatchView>::empty());
    while i < keys.len()
        invariant
            i <= keys@.len(),
            kv == keys@.map_values(|k: RipGrepMatch| k@),
            sv == secrets@.map_values(|k: RipGrepMatch| k@),
            pkg == downloaded.package@,
            dir == downloaded.directory@,
            found@.map_values(|m: ScannerMatch| m@) == spec_key_pairs(pkg, dir, kv.take(i as int), sv),
        decreases keys@.len() - i,
    {
        let key = &keys[i];
        let ghost before = found@.map_values(|m: ScannerMatch| m@);
        let mut j: usize = 0;
        assert(sv.take(0) =~= Seq::<RipGrepMatchView>::empty());
        while j < secrets.len()
            invariant
                i < keys@.len(),
                j <= secrets@.len(),
                key == keys@[i as int],
                kv == keys@.map_values(|k: RipGrepMatch| k@),
                sv == secrets@.map_values(|k: RipGrepMatch| k@),
                pkg == downloaded.package@,
                dir == downloaded.directory@,
                found@.map_values(|m: ScannerMatch| m@) == before + secrets_for(
                    pkg,
                    dir,
                    kv[i as int],
                    sv.take(j as int),
                ),
            decreases secrets@.len() - j,
        {
            let secret = &secrets[j];
            proof {
                assert(sv.take(j as int + 1).drop_last() =~= sv.take(j as int));
                assert(sv.take(j as int + 1).last() == secret@);
            }
            if secret.path == key.path {
                let m = ScannerMatch {
                    downloaded_package: downloaded.clone(),
                    rg_match: key.clone(),
                    access_key: trimmed(&key.lines),
                    secret_key: trimmed(&secret.lines),
                };
                let ghost mv = m@;
                assert(mv == pair_view(pkg, dir, kv[i as int], sv[j as int]));
                found.push(m);
                assert(found@.map_values(|m: ScannerMatch| m@) =~= (before + secrets_for(
                    pkg,
                    dir,
                    kv[i as int],
                    sv.take(j as int),
                )).push(mv));
            }
            j = j + 1;
        }
        proof {
            assert(sv.take(secrets@.len() as int) =~= sv);
            assert(kv.take(i as int + 1).drop_last() =~= kv.take(i as int));
            assert(kv.take(i as int + 1).last() == kv[i as int]);
        }
        i = i + 1;
    }
    assert(kv.take(keys@.len() as int) =~= kv);
    found
}

} // verus!
