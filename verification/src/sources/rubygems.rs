//! RubyGems: versions published in a time frame, page by page.
use crate::sources::paging::Pages;
use crate::sources::pypi::take_at_most;
use crate::sources::{PackageToProcess, PackageView, SourceError, SourceStats, SourceType};
use crate::text::{concat, decimal_text, spec_decimal};
use crate::time::{
    plus_days, rfc3339_seconds, spec_plus_days, spec_rfc3339_seconds, ts_before, Timestamp,
};
use vstd::prelude::*;
use vstd::string::*;

verus! {

/// A gem version as the RubyGems `timeframe_versions` API lists it.
#[derive(Debug)]
pub struct RubyGemsResponse {
    pub name: String,
    pub version: String,
    /// The gem's download URL, as `url::Url` writes it.
    pub gem_uri: String,
    pub version_created_at: Timestamp,
}

/// Where the RubyGems source stands: the time of the latest version it has seen.
#[derive(Debug)]
pub struct RubyGemsSource {
    pub last_package_timestamp: Timestamp,
    pub stats: SourceStats,
}

/// The address of the versions published between two instants written as text.
pub open spec fn spec_timeframe_url(from: Seq<char>, to: Seq<char>) -> Seq<char> {
    "https://rubygems.org/api/v1/timeframe_versions.json?from="@ + from + "&to="@ + to
}

/// The address of one page of versions.
pub open spec fn spec_page_url(base: Seq<char>, page: u32) -> Seq<char> {
    base + "&page="@ + spec_decimal(page as nat)
}

/// The latest publication time among the versions.
pub open spec fn latest_created(s: Seq<RubyGemsResponse>) -> Timestamp
    decreases s.len(),
{
    if s.len() <= 1 {
        s[0].version_created_at
    } else {
        let m = latest_created(s.drop_last());
        if !ts_before(s.last().version_created_at, m) {
            s.last().version_created_at
        } else {
            m
        }
    }
}

/// The package to process for a gem version.
pub open spec fn gem_package(g: RubyGemsResponse) -> PackageView {
    PackageView {
        download_url: g.gem_uri@,
        name: g.name@,
        version: g.version@,
        source: SourceType::RubyGems,
    }
}

/// The address of the versions published between `from` and `to`.
pub fn timeframe_url(from: &String, to: &String) -> (r: String)
    ensures
        r@ == spec_timeframe_url(from@, to@),
{
    let mut r = String::from_str("https://rubygems.org/api/v1/timeframe_versions.json?from=");
    r.append(from.as_str());
    r.append("&to=");
    r.append(to.as_str());
    r
}

/// The address of page `page` of the versions at `base`.
pub fn page_url(base: &String, page: u32) -> (r: String)
    ensures
        r@ == spec_page_url(base@, page),
{
    let mut r = concat(base, "&page=");
    r.append(decimal_text(page as u64).as_str());
    r
}

impl RubyGemsSource {
    /// The saved state, or where none was saved, the start: 2019-01-18T21:24:29Z.
    pub fn new(saved: Option<RubyGemsSource>) -> (r: RubyGemsSource)
        ensures
            match saved {
                Some(s) => r == s,
                None => r.last_package_timestamp == Timestamp { seconds: 1547846669, nanos: 0 }
                    && r.stats.spec_packages_searched() == 0,
            },
    {
        match saved {
            Some(s) => s,
            None => RubyGemsSource {
                last_package_timestamp: Timestamp::from_seconds(1547846669),
                stats: SourceStats::new(),
            },
        }
    }

    /// The pages of versions to walk: page 0 up to page 49.
    pub fn pages() -> (r: Pages)
        ensures
            r.next_spec() == 0,
            r.end_spec() == 50,
            !r.exhausted_spec(),
    {
        Pages::new(0, 50)
    }

    /// The source's statistics, to be updated in place.
    pub fn get_stats(&mut self) -> (r: &mut SourceStats)
        ensures
            *r == old(self).stats,
            final(self).stats == *final(r),
            final(self).last_package_timestamp == old(self).last_package_timestamp,
    {
        &mut self.stats
    }

    /// The address of the versions published from the source's time to five days later,
    /// both written by chrono as RFC 3339 with whole seconds; `None` where chrono cannot
    /// represent one of the two instants.
    pub fn base_url(&self) -> (r: Option<String>)
        ensures
            ({
                let from = self.last_package_timestamp;
                let end = spec_plus_days(from.seconds, from.nanos, 5);
                let (end_seconds, end_nanos) = end->0;
                match r {
                    Some(u) => end is Some && spec_rfc3339_seconds(from.seconds, from.nanos) is Some
                        && spec_rfc3339_seconds(end_seconds, end_nanos) is Some && u@ == spec_timeframe_url(
                        spec_rfc3339_seconds(from.seconds, from.nanos)->0,
                        spec_rfc3339_seconds(end_seconds, end_nanos)->0,
                    ),
                    None => end is None || spec_rfc3339_seconds(from.seconds, from.nanos) is None
                        || spec_rfc3339_seconds(end_seconds, end_nanos) is None,
                }
            }),
            ({
                let from = self.last_package_timestamp;
                from.nanos < 1_000_000_000 && -0x100_0000_0000 <= from.seconds <= 0x100_0000_0000
                    ==> spec_plus_days(from.seconds, from.nanos, 5) == Some(
                    ((from.seconds + 432000) as i64, from.nanos),
                )
            }),
    {
        let end = match plus_days(&self.last_package_timestamp, 5) {
            Some(e) => e,
            None => return None,
        };
        let from_text = match rfc3339_seconds(&self.last_package_timestamp) {
            Some(t) => t,
            None => return None,
        };
        let to_text = match rfc3339_seconds(&end) {
            Some(t) => t,
            None => return None,
        };
        Some(timeframe_url(&from_text, &to_text))
    }

    /// Takes the first `limit` versions gathered from the pages, moves the source on to
    /// the latest publication time among them and gives their packages, in order.
    /// Fails, leaving the source unchanged, where there is no version.
    pub fn finish(&mut self, results: Vec<RubyGemsResponse>, limit: usize) -> (r: Result<
        Vec<PackageToProcess>,
        SourceError,
    >)
        ensures
            ({
                let taken = take_at_most(results@, limit as int);
                if taken.len() == 0 {
                    r == Err::<Vec<PackageToProcess>, SourceError>(SourceError::NoReleases)
                        && *final(self) == *old(self)
                } else {
                    &&& r matches Ok(ps) && ps@.map_values(|p: PackageToProcess| p@)
                        == taken.map_values(|g: RubyGemsResponse| gem_package(g))
                    &&& final(self).last_package_timestamp == latest_created(taken)
                    &&& final(self).stats == old(self).stats
                }
            }),
    {
        let ghost taken = take_at_most(results@, limit as int);
        let mut out: Vec<PackageToProcess> = Vec::new();
        let mut latest: Timestamp = Timestamp::from_seconds(0);
        let mut n: usize = 0;
        for g in it: results.into_iter()
            invariant
                it.seq() == results@,
                n == if it.index() < limit { it.index() as usize } else { limit },
                taken == take_at_most(results@, limit as int),
                out@.map_values(|p: PackageToProcess| p@) == taken.take(n as int).map_values(
                    |g: RubyGemsResponse| gem_package(g),
                ),
                n > 0 ==> latest == latest_created(taken.take(n as int)),
        {
            if n < limit {
                proof {
                    assert(taken.take(n as int + 1).drop_last() =~= taken.take(n as int));
                    assert(taken[n as int] == g);
                }
                if n == 0 || !g.version_created_at.is_before(&latest) {
                    latest = g.version_created_at;
                }
                let p = PackageToProcess::new(g.name, g.version, g.gem_uri, SourceType::RubyGems);
                let ghost pv = p@;
                out.push(p);
                assert(out@.map_values(|p: PackageToProcess| p@) =~= taken.take(n as int).map_values(
                    |g: RubyGemsResponse| gem_package(g),
                ).push(pv));
                assert(taken.take(n as int + 1).map_values(|g: RubyGemsResponse| gem_package(g))
                    =~= taken.take(n as int).map_values(|g: RubyGemsResponse| gem_package(g)).push(
                    pv,
                ));
                n = n + 1;
            }
        }
        assert(taken.take(n as int) =~= taken);
        if n == 0 {
            return Err(SourceError::NoReleases);
        }
        self.last_package_timestamp = latest;
        Ok(out)
    }
}

/// The latest publication time among some versions is one of their times and no time
/// is later.
pub proof fn lemma_latest_created(s: Seq<RubyGemsResponse>)
    requires
        s.len() > 0,
    ensures
        exists|i: int| 0 <= i < s.len() && s[i].version_created_at == latest_created(s),
        forall|i: int| 0 <= i < s.len() ==> !ts_before(latest_created(s), #[trigger] s[i].version_created_at),
    decreases s.len(),
{
    if s.len() > 1 {
        let d = s.drop_last();
        lemma_latest_created(d);
        assert forall|i: int| 0 <= i < s.len() implies !ts_before(
            latest_created(s),
            #[trigger] s[i].version_created_at,
        ) by {
            if i < s.len() - 1 {
                assert(s[i] == d[i]);
            }
        }
        if !ts_before(s.last().version_created_at, latest_created(d)) {
            assert(s[s.len() - 1].version_created_at == latest_created(s));
        } else {
            let k = choose|k: int| 0 <= k < d.len() && d[k].version_created_at == latest_created(d);
            assert(s[k] == d[k]);
        }
    } else {
        assert(s[0].version_created_at == latest_created(s));
    }
}

} // verus!
