//! Hex: recently updated packages and their releases, page by page.
use crate::links::{parse_url, spec_parse_url};
use crate::sources::pypi::take_at_most;
use crate::sources::paging::Pages;
use crate::sources::{PackageToProcess, PackageView, SourceError, SourceStats, SourceType};
use crate::text::{decimal_text, spec_decimal};
use crate::time::{ts_before, Timestamp};
use vstd::prelude::*;
use vstd::string::*;

verus! {

/// A release of a Hex package.
#[derive(Debug)]
pub struct HexPmRelease {
    pub version: String,
    pub inserted_at: Timestamp,
}

/// A package as Hex's package list gives it.
#[derive(Debug)]
pub struct HexPmResponse {
    pub name: String,
    pub releases: Vec<HexPmRelease>,
}

/// Where the Hex source stands: the time of the latest release it has seen.
#[derive(Debug)]
pub struct HexPmSource {
    pub last_package_timestamp: Timestamp,
    pub stats: SourceStats,
}

/// A package name with one of its releases, as character sequences.
pub open spec fn named_release(p: (String, HexPmRelease)) -> (Seq<char>, Seq<char>, Timestamp) {
    (p.0@, p.1.version@, p.1.inserted_at)
}

/// The releases of the packages on a page that were published at or after `since`,
/// each with its package's name, in order.
pub open spec fn spec_new_releases(page: Seq<HexPmResponse>, since: Timestamp) -> Seq<
    (Seq<char>, Seq<char>, Timestamp),
>
    decreases page.len(),
{
    if page.len() == 0 {
        Seq::empty()
    } else {
        spec_new_releases(page.drop_last(), since) + releases_since(
            page.last().name@,
            page.last().releases@,
            since,
        )
    }
}

/// The releases published at or after `since`, each with the package name, in order.
pub open spec fn releases_since(name: Seq<char>, rs: Seq<HexPmRelease>, since: Timestamp) -> Seq<
    (Seq<char>, Seq<char>, Timestamp),
>
    decreases rs.len(),
{
    if rs.len() == 0 {
        Seq::empty()
    } else {
        let rest = releases_since(name, rs.drop_last(), since);
        if !ts_before(rs.last().inserted_at, since) {
            rest.push((name, rs.last().version@, rs.last().inserted_at))
        } else {
            rest
        }
    }
}

/// Where a Hex release's tarball is downloaded from.
pub open spec fn spec_tarball_url(name: Seq<char>, version: Seq<char>) -> Seq<char> {
    "https://repo.hex.pm/tarballs/"@ + name + "-"@ + version + ".tar"@
}

/// The address of a Hex release's tarball.
pub fn tarball_url(name: &String, version: &String) -> (r: String)
    ensures
        r@ == spec_tarball_url(name@, version@),
{
    let mut r = String::from_str("https://repo.hex.pm/tarballs/");
    r.append(name.as_str());
    r.append("-");
    r.append(version.as_str());
    r.append(".tar");
    r
}

/// The address of page `page` of Hex's package list, most recently updated first.
pub open spec fn spec_page_url(page: u32) -> Seq<char> {
    "https://hex.pm/api/packages?sort=updated_at&search=&page="@ + spec_decimal(page as nat)
}

/// The address of page `page` of Hex's package list, most recently updated first.
pub fn page_url(page: u32) -> (r: String)
    ensures
        r@ == spec_page_url(page),
{
    let mut r = String::from_str("https://hex.pm/api/packages?sort=updated_at&search=&page=");
    r.append(decimal_text(page as u64).as_str());
    r
}

/// The releases gathered from a walk over pages: those `new_releases` keeps of each
/// page, page after page.
pub open spec fn spec_gathered_releases(pages: Seq<Seq<HexPmResponse>>, since: Timestamp) -> Seq<
    (Seq<char>, Seq<char>, Timestamp),
>
    decreases pages.len(),
{
    if pages.len() == 0 {
        Seq::empty()
    } else {
        spec_gathered_releases(pages.drop_last(), since) + spec_new_releases(pages.last(), since)
    }
}

/// The last `limit` gathered releases, latest gathered first.
pub open spec fn spec_taken_releases(results: Seq<(Seq<char>, Seq<char>, Timestamp)>, limit: int) -> Seq<
    (Seq<char>, Seq<char>, Timestamp),
> {
    take_at_most(results.reverse(), limit)
}

/// The latest publication time among the releases.
pub open spec fn latest_inserted(s: Seq<(Seq<char>, Seq<char>, Timestamp)>) -> Timestamp
    decreases s.len(),
{
    if s.len() <= 1 {
        s[0].2
    } else {
        let m = latest_inserted(s.drop_last());
        if !ts_before(s.last().2, m) {
            s.last().2
        } else {
            m
        }
    }
}

/// The package to process for a release.
pub open spec fn release_package(x: (Seq<char>, Seq<char>, Timestamp)) -> PackageView {
    PackageView {
        download_url: spec_parse_url(spec_tarball_url(x.0, x.1))->0,
        name: x.0,
        version: x.1,
        source: SourceType::HexPm,
    }
}

/// A release's tarball address parses as a URL.
pub open spec fn tarball_parses(x: (Seq<char>, Seq<char>, Timestamp)) -> bool {
    spec_parse_url(spec_tarball_url(x.0, x.1)) is Some
}

/// Every release's tarball address parses as a URL.
pub open spec fn tarballs_parse(s: Seq<(Seq<char>, Seq<char>, Timestamp)>) -> bool {
    forall|i: int| 0 <= i < s.len() ==> #[trigger] tarball_parses(s[i])
}

/// The last `limit` gathered releases, latest gathered first, as character sequences.
pub open spec fn taken_releases(results: Seq<(String, HexPmRelease)>, limit: int) -> Seq<
    (Seq<char>, Seq<char>, Timestamp),
> {
    spec_taken_releases(results.map_values(|p: (String, HexPmRelease)| named_release(p)), limit)
}

impl HexPmSource {
    /// The saved state, or where none was saved, the start: 2018-01-01T00:00:00Z.
    pub fn new(saved: Option<HexPmSource>) -> (r: HexPmSource)
        ensures
            match saved {
                Some(s) => r == s,
                None => r.last_package_timestamp == Timestamp { seconds: 1514764800, nanos: 0 }
                    && r.stats.spec_packages_searched() == 0,
            },
    {
        match saved {
            Some(s) => s,
            None => HexPmSource {
                last_package_timestamp: Timestamp::from_seconds(1514764800),
                stats: SourceStats::new(),
            },
        }
    }

    /// The pages of the package list to walk: page 1 up to page 19.
    pub fn pages() -> (r: Pages)
        ensures
            r.next_spec() == 1,
            r.end_spec() == 20,
            !r.exhausted_spec(),
    {
        Pages::new(1, 20)
    }

    /// The source's statistics, to be updated in place.
    pub fn get_stats(&mut self) -> (r: &mut SourceStats)
        ensures
            *r == old(self).stats,
            final(self).stats == *final(r),
            final(self).last_package_timestamp == old(self).last_package_timestamp,
    {
        &mut self.stats
    }

    /// The releases on a page of packages that were published at or after the source's
    /// time, each with its package's name, in order.
    pub fn new_releases(&self, page: Vec<HexPmResponse>) -> (r: Vec<(String, HexPmRelease)>)
        ensures
            r@.map_values(|p: (String, HexPmRelease)| named_release(p)) == spec_new_releases(
                page@,
                self.last_package_timestamp,
            ),
    {
        let ghost all = page@;
        let since = self.last_package_timestamp;
        let mut out: Vec<(String, HexPmRelease)> = Vec::new();
        for package in it: page.into_iter()
            invariant
                it.seq() == all,
                since == self.last_package_timestamp,
                out@.map_values(|p: (String, HexPmRelease)| named_release(p)) == spec_new_releases(
                    all.take(it.index()),
                    since,
                ),
        {
            proof {
                assert(all.take(it.index() + 1).drop_last() =~= all.take(it.index()));
            }
            let ghost start = out@.map_values(|p: (String, HexPmRelease)| named_release(p));
            let ghost rs = package.releases@;
            let name = package.name;
            for rel in jt: package.releases.into_iter()
                invariant
                    jt.seq() == rs,
                    out@.map_values(|p: (String, HexPmRelease)| named_release(p)) == start
                        + releases_since(name@, rs.take(jt.index()), since),
            {
                proof {
                    assert(rs.take(jt.index() + 1).drop_last() =~= rs.take(jt.index()));
                }
                if !rel.inserted_at.is_before(&since) {
                    let ghost entry = (name@, rel.version@, rel.inserted_at);
                    out.push((name.clone(), rel));
                    assert(out@.map_values(|p: (String, HexPmRelease)| named_release(p)) =~= (start
                        + releases_since(name@, rs.take(jt.index()), since)).push(entry));
                }
            }
            assert(rs.take(rs.len() as int) =~= rs);
        }
        assert(all.take(all.len() as int) =~= all);
        out
    }

    /// Takes the last `limit` gathered releases, latest gathered first, moves the source
    /// on to the latest publication time among them and gives their packages, in that
    /// order. Fails, leaving the source unchanged, where there is no release.
    pub fn finish(&mut self, results: Vec<(String, HexPmRelease)>, limit: usize) -> (r: Result<
        Vec<PackageToProcess>,
        SourceError,
    >)
        requires
            tarballs_parse(taken_releases(results@, limit as int)),
        ensures
            ({
                let taken = spec_taken_releases(
                    results@.map_values(|p: (String, HexPmRelease)| named_release(p)),
                    limit as int,
                );
                if taken.len() == 0 {
                    r == Err::<Vec<PackageToProcess>, SourceError>(SourceError::NoReleases)
                        && *final(self) == *old(self)
                } else {
                    &&& r matches Ok(ps) && ps@.map_values(|p: PackageToProcess| p@)
                        == taken.map_values(|x: (Seq<char>, Seq<char>, Timestamp)| release_package(x))
                    &&& final(self).last_package_timestamp == latest_inserted(taken)
                    &&& final(self).stats == old(self).stats
                }
            }),
    {
        let ghost all = results@.map_values(|p: (String, HexPmRelease)| named_release(p));
        let ghost taken = spec_taken_releases(all, limit as int);
        let mut rest = results;
        let mut out: Vec<PackageToProcess> = Vec::new();
        let mut latest: Timestamp = Timestamp::from_seconds(0);
        let mut n: usize = 0;
        while n < limit && rest.len() > 0
            invariant
                all.len() == n + rest@.len(),
                rest@.map_values(|p: (String, HexPmRelease)| named_release(p)) == all.take(
                    rest@.len() as int,
                ),
                n <= limit,
                taken == spec_taken_releases(all, limit as int),
                forall|i: int| 0 <= i < taken.len() ==> #[trigger] tarball_parses(taken[i]),
                n <= taken.len(),
                out@.map_values(|p: PackageToProcess| p@) == taken.take(n as int).map_values(
                    |x: (Seq<char>, Seq<char>, Timestamp)| release_package(x),
                ),
                n > 0 ==> latest == latest_inserted(taken.take(n as int)),
            decreases limit - n,
        {
            let ghost before = rest@;
            let (name, rel) = rest.pop().unwrap();
            let ghost x = (name@, rel.version@, rel.inserted_at);
            proof {
                assert(all.reverse()[n as int] == all[all.len() - 1 - n]);
                assert(before.map_values(|p: (String, HexPmRelease)| named_release(p))[before.len()
                    - 1] == x);
                assert(all.take(before.len() as int)[before.len() - 1] == all[before.len() - 1]);
                assert(taken[n as int] == x);
                assert(rest@ =~= before.drop_last());
                assert(rest@.map_values(|p: (String, HexPmRelease)| named_release(p)) =~= all.take(
                    rest@.len() as int,
                ));
                assert(taken.take(n as int + 1).drop_last() =~= taken.take(n as int));
                assert(tarball_parses(taken[n as int]));
            }
            if n == 0 || !rel.inserted_at.is_before(&latest) {
                latest = rel.inserted_at;
            }
            let link = tarball_url(&name, &rel.version);
            let download_url = match parse_url(link.as_str()) {
                Some(u) => u,
                None => String::new(),
            };
            let p = PackageToProcess::new(name, rel.version, download_url, SourceType::HexPm);
            let ghost pv = p@;
            out.push(p);
            assert(pv == release_package(x));
            assert(taken.take(n as int + 1).map_values(
                |x: (Seq<char>, Seq<char>, Timestamp)| release_package(x),
            ) =~= taken.take(n as int).map_values(
                |x: (Seq<char>, Seq<char>, Timestamp)| release_package(x),
            ).push(pv));
            n = n + 1;
        }
        assert(taken.take(n as int) =~= taken);
        if n == 0 {
            return Err(SourceError::NoReleases);
        }
        self.last_package_timestamp = latest;
        Ok(out)
    }

    /// `finish` where every taken release's tarball address parses, `None` (the source
    /// unchanged) where one does not.
    pub fn try_finish(&mut self, results: Vec<(String, HexPmRelease)>, limit: usize) -> (r: Option<
        Result<Vec<PackageToProcess>, SourceError>,
    >)
        ensures
            ({
                let taken = spec_taken_releases(
                    results@.map_values(|p: (String, HexPmRelease)| named_release(p)),
                    limit as int,
                );
                &&& r is Some <==> tarballs_parse(taken)
                &&& r is None ==> *final(self) == *old(self)
                &&& r matches Some(res) ==> if taken.len() == 0 {
                    res == Err::<Vec<PackageToProcess>, SourceError>(SourceError::NoReleases)
                        && *final(self) == *old(self)
                } else {
                    &&& res matches Ok(ps) && ps@.map_values(|p: PackageToProcess| p@)
                        == taken.map_values(|x: (Seq<char>, Seq<char>, Timestamp)| release_package(x))
                    &&& final(self).last_package_timestamp == latest_inserted(taken)
                    &&& final(self).stats == old(self).stats
                }
            }),
    {
        let ghost all = results@.map_values(|p: (String, HexPmRelease)| named_release(p));
        let ghost taken = spec_taken_releases(all, limit as int);
        let mut k: usize = 0;
        let len = results.len();
        while k < limit && k < len
            invariant
                len == results@.len(),
                all == results@.map_values(|p: (String, HexPmRelease)| named_release(p)),
                taken == spec_taken_releases(all, limit as int),
                k <= limit,
                k <= len,
                forall|i: int| 0 <= i < k ==> #[trigger] tarball_parses(taken[i]),
            decreases len - k,
        {
            let entry = &results[len - 1 - k];
            let link = tarball_url(&entry.0, &entry.1.version);
            proof {
                assert(taken[k as int] == all.reverse()[k as int]);
                assert(all.reverse()[k as int] == all[len - 1 - k]);
            }
            if parse_url(link.as_str()).is_none() {
                proof {
                    assert(all[len - 1 - k] == named_release(results@[len - 1 - k]));
                    assert(!tarball_parses(taken[k as int]));
                }
                return None;
            }
            k = k + 1;
        }
        proof {
            assert(taken.len() == k);
        }
        Some(self.finish(results, limit))
    }
}

/// Every release that `new_releases` keeps was published at or after the source's time.
pub proof fn law_new_releases_since(page: Seq<HexPmResponse>, since: Timestamp)
    ensures
        forall|i: int|
            0 <= i < spec_new_releases(page, since).len() ==> !ts_before(
                #[trigger] spec_new_releases(page, since)[i].2,
                since,
            ),
    decreases page.len(),
{
    if page.len() > 0 {
        law_new_releases_since(page.drop_last(), since);
        lemma_releases_since(page.last().name@, page.last().releases@, since);
        let a = spec_new_releases(page.drop_last(), since);
        let b = releases_since(page.last().name@, page.last().releases@, since);
        assert forall|i: int| 0 <= i < (a + b).len() implies !ts_before(#[trigger] (a + b)[i].2, since) by {
            if i >= a.len() {
                assert((a + b)[i] == b[i - a.len()]);
            }
        }
    }
}

proof fn lemma_releases_since(name: Seq<char>, rs: Seq<HexPmRelease>, since: Timestamp)
    ensures
        forall|i: int|
            0 <= i < releases_since(name, rs, since).len() ==> !ts_before(
                #[trigger] releases_since(name, rs, since)[i].2,
                since,
            ),
    decreases rs.len(),
{
    if rs.len() > 0 {
        lemma_releases_since(name, rs.drop_last(), since);
        let rest = releases_since(name, rs.drop_last(), since);
        let all = releases_since(name, rs, since);
        assert forall|i: int| 0 <= i < all.len() implies !ts_before(#[trigger] all[i].2, since) by {
            if i < rest.len() {
                assert(all[i] == rest[i]);
            }
        }
    }
}

/// The latest time among some releases is one of their times and no time is later.
pub proof fn lemma_latest_inserted(s: Seq<(Seq<char>, Seq<char>, Timestamp)>)
    requires
        s.len() > 0,
    ensures
        exists|i: int| 0 <= i < s.len() && s[i].2 == latest_inserted(s),
        forall|i: int| 0 <= i < s.len() ==> !ts_before(latest_inserted(s), s[i].2),
    decreases s.len(),
{
    if s.len() > 1 {
        let d = s.drop_last();
        lemma_latest_inserted(d);
        assert forall|i: int| 0 <= i < s.len() implies !ts_before(latest_inserted(s), s[i].2) by {
            if i < s.len() - 1 {
                assert(s[i] == d[i]);
            }
        }
        if !ts_before(s.last().2, latest_inserted(d)) {
            assert(s[s.len() - 1].2 == latest_inserted(s));
        } else {
            let k = choose|k: int| 0 <= k < d.len() && d[k].2 == latest_inserted(d);
            assert(s[k] == d[k]);
        }
    } else {
        assert(s[0].2 == latest_inserted(s));
    }
}

/// Where every gathered release was published at or after `since` and one is taken, the
/// time the source moves on to is not before `since`: the Hex source never goes back.
pub proof fn law_hexpm_time_never_goes_back(
    results: Seq<(Seq<char>, Seq<char>, Timestamp)>,
    limit: int,
    since: Timestamp,
)
    requires
        0 <= limit,
        forall|i: int| 0 <= i < results.len() ==> !ts_before(#[trigger] results[i].2, since),
        spec_taken_releases(results, limit).len() > 0,
    ensures
        !ts_before(latest_inserted(spec_taken_releases(results, limit)), since),
{
    let t = spec_taken_releases(results, limit);
    lemma_latest_inserted(t);
    let k = choose|k: int| 0 <= k < t.len() && t[k].2 == latest_inserted(t);
    assert(t[k] == results.reverse()[k]);
    assert(results.reverse()[k] == results[results.len() - 1 - k]);
}

/// Every release gathered over a walk of pages was published at or after `since`.
proof fn lemma_gathered_since(pages: Seq<Seq<HexPmResponse>>, since: Timestamp)
    ensures
        forall|i: int|
            0 <= i < spec_gathered_releases(pages, since).len() ==> !ts_before(
                #[trigger] spec_gathered_releases(pages, since)[i].2,
                since,
            ),
    decreases pages.len(),
{
    if pages.len() > 0 {
        lemma_gathered_since(pages.drop_last(), since);
        law_new_releases_since(pages.last(), since);
        let a = spec_gathered_releases(pages.drop_last(), since);
        let b = spec_new_releases(pages.last(), since);
        assert forall|i: int| 0 <= i < (a + b).len() implies !ts_before(#[trigger] (a + b)[i].2, since) by {
            if i >= a.len() {
                assert((a + b)[i] == b[i - a.len()]);
            }
        }
    }
}

/// Whatever the pages hold, where the releases gathered from them with the source's time
/// `since` yield one to take, the time the source moves on to is not before `since`: over
/// a whole walk the Hex source never goes back.
pub proof fn law_hexpm_walk_never_goes_back(
    pages: Seq<Seq<HexPmResponse>>,
    limit: int,
    since: Timestamp,
)
    requires
        0 <= limit,
        spec_taken_releases(spec_gathered_releases(pages, since), limit).len() > 0,
    ensures
        !ts_before(
            latest_inserted(spec_taken_releases(spec_gathered_releases(pages, since), limit)),
            since,
        ),
{
    lemma_gathered_since(pages, since);
    law_hexpm_time_never_goes_back(spec_gathered_releases(pages, since), limit, since);
}

} // verus!
