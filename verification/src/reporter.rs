//! Turning live keys into reports: order, grouping, findings and where reports go.
use crate::aws::{
    key_less, lemma_key_less_irreflexive, lemma_key_less_total, lemma_key_less_transitive,
    key_equal, LiveKey,
};
use crate::links::{spec_url_path, url_path};
use crate::scanners::{spec_relative_path, ScannerMatch};
use crate::sources::{
    has_path_segments, spec_file_name, spec_report_path, PackageToProcess, SourceType,
};
use crate::text::{chars_of, concat, decimal_text, skip_first, spec_decimal, string_of, text_order};
use vstd::prelude::*;
use vstd::string::*;

verus! {

/// `s` with `x` put before its first element that comes after `x`.
pub open spec fn insert_key(s: Seq<LiveKey>, x: LiveKey) -> Seq<LiveKey>
    decreases s.len(),
{
    if s.len() == 0 {
        seq![x]
    } else if key_less(x, s[0]) {
        seq![x] + s
    } else {
        seq![s[0]] + insert_key(s.drop_first(), x)
    }
}

/// The keys in order, keys that compare equal keeping their order: the stable sort.
pub open spec fn spec_sorted_keys(s: Seq<LiveKey>) -> Seq<LiveKey>
    decreases s.len(),
{
    if s.len() == 0 {
        s
    } else {
        insert_key(spec_sorted_keys(s.drop_last()), s.last())
    }
}

/// No key comes before one that precedes it.
pub open spec fn keys_in_order(s: Seq<LiveKey>) -> bool {
    forall|i: int, j: int| 0 <= i < j < s.len() ==> !key_less(#[trigger] s[j], #[trigger] s[i])
}

proof fn lemma_insert_at(s: Seq<LiveKey>, x: LiveKey, p: int)
    requires
        0 <= p <= s.len(),
        forall|i: int| 0 <= i < p ==> !key_less(x, #[trigger] s[i]),
        p == s.len() || key_less(x, s[p]),
    ensures
        insert_key(s, x) == s.take(p) + seq![x] + s.skip(p),
    decreases p,
{
    if p == 0 {
        if s.len() == 0 {
            assert(s.take(0) + seq![x] + s.skip(0) =~= seq![x]);
        } else {
            assert(s.take(0) + seq![x] + s.skip(0) =~= seq![x] + s);
        }
    } else {
        assert forall|i: int| 0 <= i < p - 1 implies !key_less(x, #[trigger] s.drop_first()[i]) by {
            assert(s.drop_first()[i] == s[i + 1]);
        }
        lemma_insert_at(s.drop_first(), x, p - 1);
        assert(!key_less(x, s[0]));
        assert(seq![s[0]] + (s.drop_first().take(p - 1) + seq![x] + s.drop_first().skip(p - 1))
            =~= s.take(p) + seq![x] + s.skip(p));
    }
}

/// Inserting into an ordered sequence keeps it ordered and adds exactly the one key.
pub proof fn lemma_insert_key(s: Seq<LiveKey>, x: LiveKey)
    requires
        keys_in_order(s),
    ensures
        keys_in_order(insert_key(s, x)),
        insert_key(s, x).to_multiset() == s.to_multiset().insert(x),
    decreases s.len(),
{
    broadcast use vstd::seq_lib::group_to_multiset_ensures;

    if s.len() == 0 {
        assert(seq![x] =~= Seq::<LiveKey>::empty().push(x));
    } else if key_less(x, s[0]) {
        let r = seq![x] + s;
        assert forall|i: int, j: int| 0 <= i < j < r.len() implies !key_less(
            #[trigger] r[j],
            #[trigger] r[i],
        ) by {
            if i == 0 {
                if j - 1 > 0 {
                    assert(!key_less(s[j - 1], s[0]));
                }
                if key_less(s[j - 1], x) {
                    lemma_key_less_transitive(s[j - 1], x, s[0]);
                    lemma_key_less_irreflexive(s[0]);
                }
            } else {
                assert(r[i] == s[i - 1] && r[j] == s[j - 1]);
            }
        }
        vstd::seq_lib::lemma_multiset_commutative(seq![x], s);
        assert(seq![x] =~= Seq::<LiveKey>::empty().push(x));
    } else {
        let t = s.drop_first();
        assert forall|i: int, j: int| 0 <= i < j < t.len() implies !key_less(
            #[trigger] t[j],
            #[trigger] t[i],
        ) by {
            assert(t[i] == s[i + 1] && t[j] == s[j + 1]);
        }
        lemma_insert_key(t, x);
        let it = insert_key(t, x);
        let r = seq![s[0]] + it;
        assert forall|i: int, j: int| 0 <= i < j < r.len() implies !key_less(
            #[trigger] r[j],
            #[trigger] r[i],
        ) by {
            if i == 0 {
                assert(it.to_multiset().contains(r[j])) by {
                    assert(it[j - 1] == r[j]);
                    assert(it.contains(r[j]));
                }
                assert(t.to_multiset().insert(x).contains(r[j]));
                if r[j] != x {
                    assert(t.contains(r[j]));
                    let k = choose|k: int| 0 <= k < t.len() && t[k] == r[j];
                    assert(s[k + 1] == r[j]);
                }
            } else {
                assert(r[i] == it[i - 1] && r[j] == it[j - 1]);
            }
        }
        vstd::seq_lib::lemma_multiset_commutative(seq![s[0]], it);
        vstd::seq_lib::lemma_multiset_commutative(seq![s[0]], t);
        assert(seq![s[0]] + t =~= s);
        assert(seq![s[0]] =~= Seq::<LiveKey>::empty().push(s[0]));
        assert(s.to_multiset().insert(x) =~= t.to_multiset().insert(x).insert(s[0]));
    }
}

/// The sorted keys are in order and are the same keys.
pub proof fn lemma_sorted_keys(s: Seq<LiveKey>)
    ensures
        keys_in_order(spec_sorted_keys(s)),
        spec_sorted_keys(s).to_multiset() == s.to_multiset(),
    decreases s.len(),
{
    broadcast use vstd::seq_lib::group_to_multiset_ensures;

    if s.len() > 0 {
        lemma_sorted_keys(s.drop_last());
        lemma_insert_key(spec_sorted_keys(s.drop_last()), s.last());
        assert(s.drop_last().push(s.last()) =~= s);
    }
}

/// The live keys in order (`LiveKey::compare`), keys that compare equal keeping their order.
pub fn sorted_keys(items: Vec<LiveKey>) -> (r: Vec<LiveKey>)
    ensures
        r@ == spec_sorted_keys(items@),
{
    let ghost all = items@;
    let mut r: Vec<LiveKey> = Vec::new();
    for x in it: items.into_iter()
        invariant
            it.seq() == all,
            r@ == spec_sorted_keys(all.take(it.index())),
    {
        let mut p: usize = 0;
        while p < r.len() && !x.comes_before(&r[p])
            invariant
                p <= r@.len(),
                forall|i: int| 0 <= i < p ==> !key_less(x, #[trigger] r@[i]),
            decreases r@.len() - p,
        {
            p = p + 1;
        }
        proof {
            lemma_insert_at(r@, x, p as int);
            assert(all.take(it.index() + 1).drop_last() =~= all.take(it.index()));
            assert(all.take(it.index() + 1).last() == x);
        }
        r.insert(p, x);
        assert(r@ =~= spec_sorted_keys(all.take(it.index())).take(p as int) + seq![x]
            + spec_sorted_keys(all.take(it.index())).skip(p as int));
    }
    assert(all.take(all.len() as int) =~= all);
    r
}

/// One found key in a report.
#[derive(Debug)]
pub struct Finding {
    pub line_number: usize,
    pub file_path: String,
    pub role_name: String,
    pub access_key: String,
    pub secret_key: String,
    pub public_url: Option<String>,
}

/// Where the file holding a key can be read on the web: for PyPI, the file and line
/// on inspector.pypi.io; for the other registries nothing.
pub open spec fn spec_public_url(package: PackageToProcess, m: ScannerMatch) -> Option<Seq<char>> {
    match package.source {
        SourceType::PyPi => Some(
            "https://inspector.pypi.io/project/"@ + package.name@ + "/"@ + package.version@ + "/"@
                + spec_url_path(package.download_url@)->0.drop_first() + "/"@ + spec_relative_path(
                m.rg_match.path@,
                m.downloaded_package.directory@,
            ) + "#line."@ + spec_decimal(m.rg_match.line_number as nat),
        ),
        _ => None,
    }
}

/// The web address of the file and line that hold a key, where the registry offers one.
pub fn url_for_finding(package: &PackageToProcess, scanner_match: &ScannerMatch) -> (r: Option<
    String,
>)
    requires
        package.source == SourceType::PyPi ==> has_path_segments(package.download_url@),
    ensures
        r matches Some(u) ==> spec_public_url(*package, *scanner_match) == Some(u@),
        r is None ==> spec_public_url(*package, *scanner_match) is None,
{
    match package.source {
        SourceType::PyPi => {
            let path = match url_path(package.download_url.as_str()) {
                Some(p) => p,
                None => String::new(),
            };
            proof {
                reveal_strlit("/");
            }
            let pcs = chars_of(path.as_str());
            let stripped = string_of(skip_first(&pcs).as_slice());
            let mut u = String::from_str("https://inspector.pypi.io/project/");
            u.append(package.name.as_str());
            u.append("/");
            u.append(package.version.as_str());
            u.append("/");
            u.append(stripped.as_str());
            u.append("/");
            u.append(scanner_match.relative_path().as_str());
            u.append("#line.");
            u.append(decimal_text(scanner_match.rg_match.line_number as u64).as_str());
            Some(u)
        },
        _ => None,
    }
}

/// The finding that reports a live key.
pub open spec fn finding_reports(f: Finding, k: LiveKey) -> bool {
    let m = k.scanner_match;
    &&& f.line_number == m.rg_match.line_number
    &&& f.file_path@ == spec_relative_path(m.rg_match.path@, m.downloaded_package.directory@)
    &&& f.role_name@ == k.role_name@
    &&& f.access_key@ == m.access_key@
    &&& f.secret_key@ == m.secret_key@
    &&& match f.public_url {
        Some(u) => spec_public_url(m.downloaded_package.package, m) == Some(u@),
        None => spec_public_url(m.downloaded_package.package, m) is None,
    }
}

/// A live key whose report can be written: its download URL has path segments.
pub open spec fn reportable(k: LiveKey) -> bool {
    has_path_segments(k.scanner_match.downloaded_package.package.download_url@)
}

/// The finding for a live key.
pub fn finding_of(k: &LiveKey) -> (r: Finding)
    requires
        reportable(*k),
    ensures
        finding_reports(r, *k),
{
    let m = &k.scanner_match;
    Finding {
        public_url: url_for_finding(&m.downloaded_package.package, m),
        line_number: m.rg_match.line_number,
        file_path: m.relative_path(),
        role_name: k.role_name.clone(),
        access_key: m.access_key.clone(),
        secret_key: m.secret_key.clone(),
    }
}

/// `part` appended to the path `base` as `PathBuf::push` does on Unix: an absolute
/// `part` replaces `base`, otherwise a `/` separates them unless `base` is empty or
/// already ends with one.
pub open spec fn path_join(base: Seq<char>, part: Seq<char>) -> Seq<char> {
    if part.len() > 0 && part[0] == '/' {
        part
    } else if base.len() == 0 || base.last() == '/' {
        base + part
    } else {
        base.push('/') + part
    }
}

/// `part` appended to the path `base` (`PathBuf::join` on Unix).
pub fn join_path(base: &String, part: &String) -> (r: String)
    ensures
        r@ == path_join(base@, part@),
{
    let b = chars_of(base.as_str());
    let p = chars_of(part.as_str());
    if p.len() > 0 && p[0] == '/' {
        part.clone()
    } else if b.len() == 0 || b[b.len() - 1] == '/' {
        concat(base, part.as_str())
    } else {
        let mut r = base.clone();
        crate::text::push_char(&mut r, '/');
        r.append(part.as_str());
        r
    }
}

/// What a report holds: the package, one finding per key, and where it is written.
#[derive(Debug)]
pub struct Report {
    pub package: PackageToProcess,
    pub findings: Vec<Finding>,
    /// The directory of the report: the registry's report path joined with the package name.
    pub output_dir: String,
    /// The report file: `output_dir` joined with the released file's name and `.md`.
    pub output_path: String,
}

/// `r` is the report for the run of keys `g`.
pub open spec fn report_for(r: Report, g: Seq<LiveKey>) -> bool {
    let p = g[0].scanner_match.downloaded_package.package;
    &&& r.package == p
    &&& r.findings@.len() == g.len()
    &&& forall|i: int| 0 <= i < g.len() ==> finding_reports(#[trigger] r.findings@[i], g[i])
    &&& r.output_dir@ == path_join(spec_report_path(p.source), p.name@)
    &&& r.output_path@ == path_join(r.output_dir@, spec_file_name(p.download_url@) + ".md"@)
}

/// The report for a run of keys from one scanner match.
pub fn report_for_group(g: &Vec<LiveKey>) -> (r: Report)
    requires
        g@.len() > 0,
        forall|i: int| 0 <= i < g@.len() ==> reportable(#[trigger] g@[i]),
    ensures
        report_for(r, g@),
{
    let first = &g[0];
    let package = first.scanner_match.downloaded_package.package.clone();
    let mut findings: Vec<Finding> = Vec::new();
    let mut i: usize = 0;
    while i < g.len()
        invariant
            i <= g@.len(),
            forall|j: int| 0 <= j < g@.len() ==> reportable(#[trigger] g@[j]),
            findings@.len() == i,
            forall|j: int| 0 <= j < i ==> finding_reports(#[trigger] findings@[j], g@[j]),
        decreases g@.len() - i,
    {
        findings.push(finding_of(&g[i]));
        i = i + 1;
    }
    let output_dir = join_path(&package.source.report_path(), &package.name);
    let file = concat(&package.file_name(), ".md");
    let output_path = join_path(&output_dir, &file);
    Report { package, findings, output_dir, output_path }
}

/// The report file a live key belongs in: the registry's report path, the package name,
/// and the released file's name with `.md`. One release file gives one report file.
pub open spec fn key_output_path(k: LiveKey) -> Seq<char> {
    let p = k.scanner_match.downloaded_package.package;
    path_join(
        path_join(spec_report_path(p.source), p.name@),
        spec_file_name(p.download_url@) + ".md"@,
    )
}

/// The report file of a live key.
pub fn output_path_of(k: &LiveKey) -> (r: String)
    requires
        reportable(*k),
    ensures
        r@ == key_output_path(*k),
{
    let p = &k.scanner_match.downloaded_package.package;
    let dir = join_path(&p.source.report_path(), &p.name);
    let file = concat(&p.file_name(), ".md");
    join_path(&dir, &file)
}

/// Index of the group whose report file is `path`, or -1 where there is none.
pub open spec fn path_group_index(g: Seq<Seq<LiveKey>>, path: Seq<char>) -> int
    decreases g.len(),
{
    if g.len() == 0 {
        -1
    } else if g.last().len() > 0 && key_output_path(g.last()[0]) == path {
        g.len() - 1
    } else {
        path_group_index(g.drop_last(), path)
    }
}

/// The keys grouped by report file: groups in the order their first key appears, each
/// group's keys in their order.
pub open spec fn spec_report_groups(s: Seq<LiveKey>) -> Seq<Seq<LiveKey>>
    decreases s.len(),
{
    if s.len() == 0 {
        Seq::empty()
    } else {
        let g = spec_report_groups(s.drop_last());
        let x = s.last();
        let k = path_group_index(g, key_output_path(x));
        if k >= 0 {
            g.update(k, g[k].push(x))
        } else {
            g.push(seq![x])
        }
    }
}

proof fn lemma_path_group_index(g: Seq<Seq<LiveKey>>, path: Seq<char>)
    ensures
        -1 <= path_group_index(g, path) < g.len(),
        path_group_index(g, path) >= 0 ==> g[path_group_index(g, path)].len() > 0
            && key_output_path(g[path_group_index(g, path)][0]) == path,
        path_group_index(g, path) == -1 ==> forall|j: int|
            0 <= j < g.len() && #[trigger] g[j].len() > 0 ==> key_output_path(g[j][0]) != path,
    decreases g.len(),
{
    if g.len() > 0 {
        lemma_path_group_index(g.drop_last(), path);
        if !(g.last().len() > 0 && key_output_path(g.last()[0]) == path) {
            assert forall|j: int| 0 <= j < g.len() - 1 implies g[j] == g.drop_last()[j] by {}
        }
    }
}

/// Grouping by report file: every group is non-empty and all its keys belong in one
/// report file, no two groups share a report file, every key is in the group of its
/// report file, and every key of a group is one of the keys given.
#[verifier::spinoff_prover]
#[verifier::rlimit(60)]
pub proof fn law_report_groups(s: Seq<LiveKey>)
    ensures
        forall|k: int| 0 <= k < spec_report_groups(s).len() ==> #[trigger] spec_report_groups(s)[k].len() > 0,
        forall|k: int, i: int|
            0 <= k < spec_report_groups(s).len() && 0 <= i < spec_report_groups(s)[k].len()
                ==> key_output_path(#[trigger] spec_report_groups(s)[k][i]) == key_output_path(
                spec_report_groups(s)[k][0],
            ),
        forall|k: int, i: int|
            0 <= k < spec_report_groups(s).len() && 0 <= i < spec_report_groups(s)[k].len()
                ==> s.contains(#[trigger] spec_report_groups(s)[k][i]),
        forall|j: int, k: int|
            0 <= j < k < spec_report_groups(s).len() ==> key_output_path(
                #[trigger] spec_report_groups(s)[j][0],
            ) != key_output_path(#[trigger] spec_report_groups(s)[k][0]),
        forall|i: int|
            0 <= i < s.len() ==> exists|k: int|
                0 <= k < spec_report_groups(s).len() && key_output_path(spec_report_groups(s)[k][0])
                    == key_output_path(#[trigger] s[i]) && spec_report_groups(s)[k].contains(s[i]),
    decreases s.len(),
{
    if s.len() > 0 {
        let d = s.drop_last();
        let x = s.last();
        law_report_groups(d);
        let g = spec_report_groups(d);
        lemma_path_group_index(g, key_output_path(x));
        let k0 = path_group_index(g, key_output_path(x));
        let r = spec_report_groups(s);
        assert forall|k: int, i: int| 0 <= k < r.len() && 0 <= i < r[k].len() implies s.contains(
            #[trigger] r[k][i],
        ) by {
            if k0 >= 0 && k == k0 && i == g[k].len() {
                assert(r[k][i] == x);
                assert(s[s.len() - 1] == x);
            } else if k0 < 0 && k == g.len() {
                assert(r[k][i] == x);
                assert(s[s.len() - 1] == x);
            } else {
                if k0 >= 0 && k == k0 {
                    assert(r[k][i] == g[k][i]);
                } else {
                    assert(r[k] == g[k]);
                }
                assert(d.contains(g[k][i]));
                let t = choose|t: int| 0 <= t < d.len() && d[t] == g[k][i];
                assert(s[t] == d[t]);
            }
        }
        if k0 >= 0 {
            assert forall|k: int, i: int| 0 <= k < r.len() && 0 <= i < r[k].len() implies key_output_path(
                #[trigger] r[k][i],
            ) == key_output_path(r[k][0]) by {
                if k == k0 && i == g[k].len() {
                    assert(r[k][i] == x);
                    assert(r[k][0] == g[k][0]);
                } else if k == k0 {
                    assert(r[k][i] == g[k][i]);
                    assert(r[k][0] == g[k][0]);
                }
            }
            assert forall|j: int, k: int| 0 <= j < k < r.len() implies key_output_path(
                #[trigger] r[j][0],
            ) != key_output_path(#[trigger] r[k][0]) by {
                assert(r[j][0] == g[j][0]);
                assert(r[k][0] == g[k][0]);
            }
            assert forall|i: int| 0 <= i < s.len() implies exists|k: int|
                0 <= k < r.len() && key_output_path(r[k][0]) == key_output_path(#[trigger] s[i])
                    && r[k].contains(s[i]) by {
                if i == s.len() - 1 {
                    assert(r[k0][g[k0].len() as int] == x);
                    assert(r[k0][0] == g[k0][0]);
                } else {
                    assert(s[i] == d[i]);
                    let k = choose|k: int|
                        0 <= k < g.len() && key_output_path(g[k][0]) == key_output_path(#[trigger] d[i])
                            && g[k].contains(d[i]);
                    let j = choose|j: int| 0 <= j < g[k].len() && g[k][j] == d[i];
                    if k == k0 {
                        assert(r[k][j] == d[i]);
                        assert(r[k][0] == g[k][0]);
                    } else {
                        assert(r[k] == g[k]);
                    }
                }
            }
        } else {
            assert forall|k: int, i: int| 0 <= k < r.len() && 0 <= i < r[k].len() implies key_output_path(
                #[trigger] r[k][i],
            ) == key_output_path(r[k][0]) by {
                if k < g.len() {
                    assert(r[k] == g[k]);
                }
            }
            assert forall|j: int, k: int| 0 <= j < k < r.len() implies key_output_path(
                #[trigger] r[j][0],
            ) != key_output_path(#[trigger] r[k][0]) by {
                assert(r[j] == g[j]);
                if k < g.len() {
                    assert(r[k] == g[k]);
                } else {
                    assert(r[k][0] == x);
                }
            }
            assert forall|i: int| 0 <= i < s.len() implies exists|k: int|
                0 <= k < r.len() && key_output_path(r[k][0]) == key_output_path(#[trigger] s[i])
                    && r[k].contains(s[i]) by {
                if i == s.len() - 1 {
                    assert(r[g.len() as int][0] == x);
                } else {
                    assert(s[i] == d[i]);
                    let k = choose|k: int|
                        0 <= k < g.len() && key_output_path(g[k][0]) == key_output_path(#[trigger] d[i])
                            && g[k].contains(d[i]);
                    assert(r[k] == g[k]);
                }
            }
        }
    }
}

/// Some group holds the key.
pub open spec fn in_some_group(gs: Seq<Seq<LiveKey>>, x: LiveKey) -> bool {
    exists|k: int| 0 <= k < gs.len() && #[trigger] gs[k].contains(x)
}

/// Every live key given is reported in exactly one report group, the group of its
/// report file.
pub proof fn law_reports_cover_keys(items: Seq<LiveKey>)
    ensures
        forall|i: int|
            0 <= i < items.len() ==> in_some_group(
                spec_report_groups(spec_sorted_keys(items)),
                #[trigger] items[i],
            ),
        forall|x: LiveKey, k1: int, k2: int|
            0 <= k1 < spec_report_groups(spec_sorted_keys(items)).len() && 0 <= k2
                < spec_report_groups(spec_sorted_keys(items)).len() && #[trigger] spec_report_groups(
                spec_sorted_keys(items),
            )[k1].contains(x) && #[trigger] spec_report_groups(spec_sorted_keys(items))[k2].contains(
                x,
            ) ==> k1 == k2,
{
    broadcast use vstd::seq_lib::group_to_multiset_ensures;

    let sv = spec_sorted_keys(items);
    lemma_sorted_keys(items);
    law_report_groups(sv);
    let gs = spec_report_groups(sv);
    assert forall|i: int| 0 <= i < items.len() implies in_some_group(gs, #[trigger] items[i]) by {
        assert(items.to_multiset().count(items[i]) > 0);
        assert(sv.contains(items[i]));
        let t = choose|t: int| 0 <= t < sv.len() && sv[t] == items[i];
        let kk = choose|kk: int|
            0 <= kk < gs.len() && key_output_path(gs[kk][0]) == key_output_path(#[trigger] sv[t])
                && gs[kk].contains(sv[t]);
        assert(gs[kk].contains(items[i]));
    }
    assert forall|x: LiveKey, k1: int, k2: int|
        0 <= k1 < gs.len() && 0 <= k2 < gs.len() && #[trigger] gs[k1].contains(x)
            && #[trigger] gs[k2].contains(x) implies k1 == k2 by {
        let i1 = choose|i: int| 0 <= i < gs[k1].len() && gs[k1][i] == x;
        let i2 = choose|i: int| 0 <= i < gs[k2].len() && gs[k2][i] == x;
        assert(key_output_path(gs[k1][i1]) == key_output_path(gs[k1][0]));
        assert(key_output_path(gs[k2][i2]) == key_output_path(gs[k2][0]));
        if k1 < k2 {
            assert(key_output_path(gs[k1][0]) != key_output_path(gs[k2][0]));
        } else if k2 < k1 {
            assert(key_output_path(gs[k2][0]) != key_output_path(gs[k1][0]));
        }
    }
}

/// Two ordered sequences of the same keys, no two of them `==`, are the same sequence.
proof fn lemma_ordered_unique(a: Seq<LiveKey>, b: Seq<LiveKey>)
    requires
        keys_in_order(a),
        keys_in_order(b),
        a.to_multiset() == b.to_multiset(),
        forall|i: int, j: int|
            0 <= i < j < a.len() ==> !key_equal(#[trigger] a[i], #[trigger] a[j]),
    ensures
        a == b,
    decreases a.len(),
{
    broadcast use vstd::seq_lib::group_to_multiset_ensures;

    if a.len() == 0 {
        assert(a.to_multiset().len() == a.len());
        assert(b.to_multiset().len() == b.len());
        assert(b.len() == 0);
        assert(a =~= b);
    } else {
        assert(a.to_multiset().len() == a.len());
        assert(b.to_multiset().len() == b.len());
        assert(b.len() == a.len());
        let x = a[0];
        let y = b[0];
        assert(b.to_multiset().count(y) > 0);
        assert(a.contains(y));
        assert(a.to_multiset().count(x) > 0);
        assert(b.contains(x));
        if x != y {
            let iy = choose|i: int| 0 <= i < a.len() && a[i] == y;
            let ix = choose|i: int| 0 <= i < b.len() && b[i] == x;
            assert(iy != 0);
            assert(!key_equal(a[0], a[iy]));
            lemma_key_less_total(x, y);
            assert(!key_less(a[iy], a[0]));
            assert(!key_less(b[ix], b[0]));
            assert(false);
        }
        let a1 = a.drop_first();
        let b1 = b.drop_first();
        assert(a.remove(0) =~= a1);
        assert(b.remove(0) =~= b1);
        assert(a1.to_multiset() =~= a.to_multiset().remove(x));
        assert(b1.to_multiset() =~= b.to_multiset().remove(y));
        assert forall|i: int, j: int| 0 <= i < j < a1.len() implies !key_equal(#[trigger] a1[i], #[trigger] a1[j]) by {
            assert(a1[i] == a[i + 1] && a1[j] == a[j + 1]);
        }
        assert forall|i: int, j: int| 0 <= i < j < a1.len() implies !key_less(#[trigger] a1[j], #[trigger] a1[i]) by {
            assert(a1[i] == a[i + 1] && a1[j] == a[j + 1]);
        }
        assert forall|i: int, j: int| 0 <= i < j < b1.len() implies !key_less(#[trigger] b1[j], #[trigger] b1[i]) by {
            assert(b1[i] == b[i + 1] && b1[j] == b[j + 1]);
        }
        lemma_ordered_unique(a1, b1);
        assert(a =~= seq![x] + a1);
        assert(b =~= seq![y] + b1);
    }
}

/// The reports do not depend on the order in which the live keys are given, where no two
/// keys are `==`: the sorted keys, and so the report groups and the reports, are the same.
pub proof fn law_reports_ignore_input_order(items1: Seq<LiveKey>, items2: Seq<LiveKey>)
    requires
        items1.to_multiset() == items2.to_multiset(),
        forall|i: int, j: int|
            0 <= i < j < items1.len() ==> !key_equal(#[trigger] items1[i], #[trigger] items1[j]),
    ensures
        spec_sorted_keys(items1) == spec_sorted_keys(items2),
        spec_report_groups(spec_sorted_keys(items1)) == spec_report_groups(spec_sorted_keys(items2)),
{
    broadcast use vstd::seq_lib::group_to_multiset_ensures;

    lemma_sorted_keys(items1);
    lemma_sorted_keys(items2);
    let a = spec_sorted_keys(items1);
    assert forall|i: int, j: int| 0 <= i < j < a.len() implies !key_equal(#[trigger] a[i], #[trigger] a[j]) by {
        lemma_distinct_keys_of_permutation(items1, a, i, j);
    }
    lemma_ordered_unique(a, spec_sorted_keys(items2));
}

/// Keys at different places of a permutation of a sequence with no two keys `==` are not
/// `==` either.
proof fn lemma_distinct_keys_of_permutation(s: Seq<LiveKey>, t: Seq<LiveKey>, i: int, j: int)
    requires
        s.to_multiset() == t.to_multiset(),
        forall|a: int, b: int|
            0 <= a < b < s.len() ==> !key_equal(#[trigger] s[a], #[trigger] s[b]),
        0 <= i < j < t.len(),
    ensures
        !key_equal(t[i], t[j]),
{
    broadcast use vstd::seq_lib::group_to_multiset_ensures;

    assert(t.to_multiset().count(t[i]) > 0);
    assert(t.to_multiset().count(t[j]) > 0);
    assert(s.contains(t[i]));
    assert(s.contains(t[j]));
    let a = choose|a: int| 0 <= a < s.len() && s[a] == t[i];
    let b = choose|b: int| 0 <= b < s.len() && s[b] == t[j];
    if key_equal(t[i], t[j]) {
        if a == b {
            // t[i] == t[j]: the key occurs twice in t, so twice in s.
            assert(t[i] == t[j]);
            let tr = t.remove(j);
            assert(tr.to_multiset() =~= t.to_multiset().remove(t[j]));
            assert(tr[i] == t[i]);
            assert(tr.to_multiset().count(t[i]) > 0);
            assert(s.to_multiset().count(t[i]) >= 2);
            let sr = s.remove(a);
            assert(sr.to_multiset() =~= s.to_multiset().remove(s[a]));
            assert(sr.to_multiset().count(t[i]) > 0);
            assert(sr.contains(t[i]));
            let c = choose|c: int| 0 <= c < sr.len() && sr[c] == t[i];
            if c < a {
                assert(sr[c] == s[c]);
                assert(!key_equal(s[c], s[a]));
            } else {
                assert(sr[c] == s[c + 1]);
                assert(!key_equal(s[a], s[c + 1]));
            }
        } else if a < b {
            assert(!key_equal(s[a], s[b]));
        } else {
            assert(!key_equal(s[b], s[a]));
        }
    }
}

/// Index of the group whose report file is `path`, if there is one.
fn find_group(groups: &Vec<Vec<LiveKey>>, path: &String) -> (r: Option<usize>)
    requires
        forall|k: int| 0 <= k < groups@.len() ==> #[trigger] groups@[k]@.len() > 0,
        forall|k: int, i: int|
            0 <= k < groups@.len() && 0 <= i < groups@[k]@.len() ==> reportable(
                #[trigger] groups@[k]@[i],
            ),
    ensures
        match r {
            Some(k) => path_group_index(groups@.map_values(|g: Vec<LiveKey>| g@), path@) == k,
            None => path_group_index(groups@.map_values(|g: Vec<LiveKey>| g@), path@) == -1,
        },
{
    let ghost gv = groups@.map_values(|g: Vec<LiveKey>| g@);
    let mut k: usize = groups.len();
    assert(gv.take(k as int) =~= gv);
    while k > 0
        invariant
            k <= groups@.len(),
            gv == groups@.map_values(|g: Vec<LiveKey>| g@),
            forall|k: int| 0 <= k < groups@.len() ==> #[trigger] groups@[k]@.len() > 0,
            forall|k: int, i: int|
                0 <= k < groups@.len() && 0 <= i < groups@[k]@.len() ==> reportable(
                    #[trigger] groups@[k]@[i],
                ),
            path_group_index(gv, path@) == path_group_index(gv.take(k as int), path@),
        decreases k,
    {
        let g = &groups[k - 1];
        assert(gv.take(k as int).last() == gv[k - 1]);
        assert(g@.len() > 0);
        assert(reportable(g@[0]));
        let p = output_path_of(&g[0]);
        if text_order(&p, path) == 0 {
            return Some(k - 1);
        }
        assert(gv.take(k as int).drop_last() =~= gv.take(k - 1));
        k = k - 1;
    }
    None
}

/// The keys grouped by report file (see `spec_report_groups`).
#[verifier::spinoff_prover]
#[verifier::rlimit(30)]
pub fn group_by_report_file(items: Vec<LiveKey>) -> (r: Vec<Vec<LiveKey>>)
    requires
        forall|i: int| 0 <= i < items@.len() ==> reportable(#[trigger] items@[i]),
    ensures
        r@.map_values(|g: Vec<LiveKey>| g@) == spec_report_groups(items@),
{
    let ghost all = items@;
    let mut groups: Vec<Vec<LiveKey>> = Vec::new();
    assert(groups@.map_values(|g: Vec<LiveKey>| g@) =~= spec_report_groups(all.take(0)));
    for x in it: items.into_iter()
        invariant
            it.seq() == all,
            forall|i: int| 0 <= i < all.len() ==> reportable(#[trigger] all[i]),
            groups@.map_values(|g: Vec<LiveKey>| g@) == spec_report_groups(all.take(it.index())),
    {
        let ghost before = groups@.map_values(|g: Vec<LiveKey>| g@);
        proof {
            assert(all.take(it.index() + 1).drop_last() =~= all.take(it.index()));
            assert(all.take(it.index() + 1).last() == x);
            assert(all[it.index()] == x);
            law_report_groups(all.take(it.index()));
            lemma_path_group_index(before, key_output_path(x));
            assert forall|k: int| 0 <= k < groups@.len() implies #[trigger] groups@[k]@.len() > 0 by {
                assert(groups@[k]@ == before[k]);
            }
            assert forall|k: int, i: int|
                0 <= k < groups@.len() && 0 <= i < groups@[k]@.len() implies reportable(
                    #[trigger] groups@[k]@[i],
                ) by {
                assert(groups@[k]@ == before[k]);
                assert(all.take(it.index()).contains(before[k][i]));
                let t = choose|t: int| 0 <= t < all.take(it.index()).len() && all.take(it.index())[t] == before[k][i];
                assert(all[t] == before[k][i]);
            }
        }
        let path = output_path_of(&x);
        match find_group(&groups, &path) {
            Some(k) => {
                let ghost old_groups = groups@;
                groups[k].push(x);
                assert(groups@.len() == old_groups.len());
                assert(forall|j: int| 0 <= j < groups@.len() && j != k ==> groups@[j] == old_groups[j]);
                assert(groups@[k as int]@ == old_groups[k as int]@.push(x));
                assert(groups@.map_values(|g: Vec<LiveKey>| g@) =~= before.update(
                    k as int,
                    before[k as int].push(x),
                ));
            },
            None => {
                let mut g: Vec<LiveKey> = Vec::new();
                g.push(x);
                assert(g@ =~= seq![x]);
                groups.push(g);
                assert(groups@.map_values(|g: Vec<LiveKey>| g@) =~= before.push(seq![x]));
            },
        }
    }
    assert(all.take(all.len() as int) =~= all);
    groups
}

/// The reports for a list of live keys: the keys sorted, then one report per report file,
/// that is per released file, holding a finding for each of its keys.
#[verifier::spinoff_prover]
#[verifier::rlimit(60)]
pub fn reports(items: Vec<LiveKey>) -> (r: Vec<Report>)
    requires
        forall|i: int| 0 <= i < items@.len() ==> reportable(#[trigger] items@[i]),
    ensures
        r@.len() == spec_report_groups(spec_sorted_keys(items@)).len(),
        forall|k: int|
            0 <= k < r@.len() ==> report_for(
                #[trigger] r@[k],
                spec_report_groups(spec_sorted_keys(items@))[k],
            ),
        forall|k: int|
            0 <= k < r@.len() ==> (#[trigger] r@[k]).output_path@ == key_output_path(
                spec_report_groups(spec_sorted_keys(items@))[k][0],
            ),
        forall|j: int, k: int|
            0 <= j < k < r@.len() ==> (#[trigger] r@[j]).output_path@ != (#[trigger] r@[k]).output_path@,
        forall|i: int|
            0 <= i < items@.len() ==> exists|k: int, j: int|
                0 <= k < r@.len() && 0 <= j < r@[k].findings@.len() && r@[k].output_path@
                    == key_output_path(#[trigger] items@[i]) && finding_reports(
                    r@[k].findings@[j],
                    items@[i],
                ),
{
    broadcast use vstd::seq_lib::group_to_multiset_ensures;

    let ghost input = items@;
    proof {
        lemma_sorted_keys(input);
    }
    let sorted = sorted_keys(items);
    let ghost sv = sorted@;
    assert forall|i: int| 0 <= i < sv.len() implies reportable(#[trigger] sv[i]) by {
        assert(sv.to_multiset().count(sv[i]) > 0);
        assert(input.contains(sv[i]));
    }
    let groups = group_by_report_file(sorted);
    proof {
        law_report_groups(sv);
    }
    let ghost gs = spec_report_groups(sv);
    let mut r: Vec<Report> = Vec::new();
    let mut k: usize = 0;
    while k < groups.len()
        invariant
            gs == groups@.map_values(|g: Vec<LiveKey>| g@),
            gs == spec_report_groups(sv),
            forall|j: int| 0 <= j < gs.len() ==> #[trigger] gs[j].len() > 0,
            forall|j: int, i: int|
                0 <= j < gs.len() && 0 <= i < gs[j].len() ==> sv.contains(#[trigger] gs[j][i]),
            forall|i: int| 0 <= i < sv.len() ==> reportable(#[trigger] sv[i]),
            k <= groups@.len(),
            r@.len() == k,
            forall|j: int| 0 <= j < k ==> report_for(#[trigger] r@[j], gs[j]),
        decreases groups@.len() - k,
    {
        let g = &groups[k];
        assert(g@ == gs[k as int]);
        assert forall|i: int| 0 <= i < g@.len() implies reportable(#[trigger] g@[i]) by {
            assert(sv.contains(gs[k as int][i]));
            let t = choose|t: int| 0 <= t < sv.len() && sv[t] == gs[k as int][i];
        }
        r.push(report_for_group(g));
        k = k + 1;
    }
    proof {
        assert forall|i: int| 0 <= i < input.len() implies exists|k: int, j: int|
            0 <= k < r@.len() && 0 <= j < r@[k].findings@.len() && r@[k].output_path@
                == key_output_path(#[trigger] input[i]) && finding_reports(
                r@[k].findings@[j],
                input[i],
            ) by {
            assert(input.to_multiset().count(input[i]) > 0);
            assert(sv.contains(input[i]));
            let t = choose|t: int| 0 <= t < sv.len() && sv[t] == input[i];
            let kk = choose|kk: int|
                0 <= kk < gs.len() && key_output_path(gs[kk][0]) == key_output_path(#[trigger] sv[t])
                    && gs[kk].contains(sv[t]);
            let j = choose|j: int| 0 <= j < gs[kk].len() && gs[kk][j] == sv[t];
            assert(report_for(r@[kk], gs[kk]));
            assert(finding_reports(r@[kk].findings@[j], gs[kk][j]));
        }
    }
    r
}

/// `reports` where every key's download URL has path segments, `None` where one has not.
pub fn try_reports(items: Vec<LiveKey>) -> (r: Option<Vec<Report>>)
    ensures
        r is Some <==> forall|i: int| 0 <= i < items@.len() ==> reportable(#[trigger] items@[i]),
        r matches Some(rs) ==> rs@.len() == spec_report_groups(spec_sorted_keys(items@)).len(),
        r matches Some(rs) ==> forall|k: int|
            0 <= k < rs@.len() ==> report_for(
                #[trigger] rs@[k],
                spec_report_groups(spec_sorted_keys(items@))[k],
            ),
        r matches Some(rs) ==> forall|j: int, k: int|
            0 <= j < k < rs@.len() ==> (#[trigger] rs@[j]).output_path@ != (#[trigger] rs@[k]).output_path@,
        r matches Some(rs) ==> forall|i: int|
            0 <= i < items@.len() ==> exists|k: int, j: int|
                0 <= k < rs@.len() && 0 <= j < rs@[k].findings@.len() && rs@[k].output_path@
                    == key_output_path(#[trigger] items@[i]) && finding_reports(
                    rs@[k].findings@[j],
                    items@[i],
                ),
{
    let mut i: usize = 0;
    while i < items.len()
        invariant
            i <= items@.len(),
            forall|j: int| 0 <= j < i ==> reportable(#[trigger] items@[j]),
        decreases items@.len() - i,
    {
        if !items[i].scanner_match.downloaded_package.package.has_path_segments() {
            return None;
        }
        i = i + 1;
    }
    Some(reports(items))
}

} // verus!
