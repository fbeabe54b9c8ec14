//! PyPI: its changelog of uploads, the release files to scan, and the source's progress.
use crate::links::{parse_url, spec_parse_url};
use crate::sources::{PackageToProcess, PackageView, SourceError, SourceStats, SourceType};
use crate::text::{
    after_last, chars_of, contains, contains_text, has_prefix, last_piece, starts_with, string_of,
    text_order,
};
use crate::time::{ts_before, Timestamp};
use rand::seq::SliceRandom;
use vstd::prelude::*;
use vstd::string::*;

verus! {

/// The parts of an XML-RPC value that the changelog is read through.
#[derive(Debug)]
pub enum XmlValue {
    Int(i32),
    String(String),
    Array(Vec<XmlValue>),
    /// Any other kind of value.
    Other,
}

/// One upload from PyPI's changelog.
#[derive(Debug)]
pub struct ChangelogItem {
    pub package_name: String,
    pub version: String,
    /// The name of the uploaded file.
    pub file_name: String,
    pub ts: Timestamp,
    pub serial: u64,
}

/// A changelog entry's fields as character sequences.
pub struct ChangelogView {
    pub package_name: Seq<char>,
    pub version: Seq<char>,
    pub file_name: Seq<char>,
    pub ts: Timestamp,
    pub serial: u64,
}

impl View for ChangelogItem {
    type V = ChangelogView;

    open spec fn view(&self) -> ChangelogView {
        ChangelogView {
            package_name: self.package_name@,
            version: self.version@,
            file_name: self.file_name@,
            ts: self.ts,
            serial: self.serial,
        }
    }
}

/// Packages whose uploads are never scanned: the most downloaded ones on PyPI.
pub open spec fn skip_packages() -> Seq<Seq<char>> {
    seq![
        "tf-nightly"@,
        "tensorflow"@,
        "catboost-dev"@,
        "tensorflow-gpu"@,
        "tensorflow-io-nightly"@,
        "tf-nightly-gpu"@,
        "paddlepaddle-gpu"@,
        "frida"@,
        "tf-nightly-cpu"@,
        "openvisus"@,
        "tf-nightly-intel"@,
        "tensorflow-cpu"@,
        "torch"@,
        "tf-nightly-cpu-aws"@,
        "cupy-cuda92"@,
        "cupy-cuda100"@,
        "cupy-cuda90"@,
        "lalsuite"@,
        "tensorflow-rocm"@,
        "cupy-cuda91"@,
        "cupy-cuda101"@,
        "pyagrum-nightly"@,
        "catboost"@,
        "grpcio"@,
        "opencv-contrib-python"@,
        "grpcio-tools"@,
        "opencv-python"@,
        "opencv-contrib-python-headless"@,
        "scipy"@,
        "deepspeech-gpu"@,
        "cupy-cuda80"@,
        "pantsbuild.pants"@,
        "sickrage"@,
        "ovito"@,
        "ray"@,
        "pyqt5-tools"@,
        "cupy-cuda102"@,
        "panda3d"@,
        "opencv-python-headless"@,
        "paddlepaddle"@,
        "codeforlife-portal"@,
        "tensorflow-io-2.0-preview"@,
        "udata"@,
        "pulsar-client-sn"@,
        "cmake"@,
        "numpy"@,
        "pybullet"@,
        "tf-gpu"@,
        "codeintel"@,
        "ddtrace"@,
        "itk-core"@,
        "ccxt"@,
        "xpress"@,
        "itk-filtering"@,
        "tendenci"@,
        "apache-flink"@,
        "pyside2"@,
        "tensorflow-aarch64"@,
        "rasterio"@,
        "cupy-cuda111"@,
        "pygame"@,
        "taichi"@,
        "intel-tensorflow"@,
        "botocore"@,
        "matplotlib"@,
        "pulumi-azure-native"@,
        "megengine"@,
        "allennlp-pvt-nightly"@,
        "casadi"@,
        "monocdk"@,
        "kolibri"@,
        "cupy-cuda110"@,
        "jaxlib"@,
        "deepspeech"@,
        "ctranslate2"@,
        "azureml-dataprep-rslex"@,
        "tensorflow-rocm-enhanced"@,
        "spacy"@,
        "homeassistant"@,
        "pystan"@,
        "pyarrow"@,
        "cntk-gpu"@,
        "home-assistant-frontend"@,
        "aws-cdk-lib"@,
        "jiminy-py"@,
        "nimbusml"@,
        "simpleitk"@,
        "mindspore"@,
        "pandas"@,
        "h2o"@,
        "cityenergyanalyst"@,
        "mosek"@,
        "construct-hub"@,
        "aim"@,
        "mxnet-cu90"@,
        "open3d"@,
        "pyre-check-nightly"@,
        "tiledb"@,
        "mkl"@,
        "awscrt"@,
    ]
}

fn skip_package_names() -> (r: Vec<&'static str>)
    ensures
        r@.map_values(|s: &str| s@) == skip_packages(),
{
    let r = vec![
        "tf-nightly",
        "tensorflow",
        "catboost-dev",
        "tensorflow-gpu",
        "tensorflow-io-nightly",
        "tf-nightly-gpu",
        "paddlepaddle-gpu",
        "frida",
        "tf-nightly-cpu",
        "openvisus",
        "tf-nightly-intel",
        "tensorflow-cpu",
        "torch",
        "tf-nightly-cpu-aws",
        "cupy-cuda92",
        "cupy-cuda100",
        "cupy-cuda90",
        "lalsuite",
        "tensorflow-rocm",
        "cupy-cuda91",
        "cupy-cuda101",
        "pyagrum-nightly",
        "catboost",
        "grpcio",
        "opencv-contrib-python",
        "grpcio-tools",
        "opencv-python",
        "opencv-contrib-python-headless",
        "scipy",
        "deepspeech-gpu",
        "cupy-cuda80",
        "pantsbuild.pants",
        "sickrage",
        "ovito",
        "ray",
        "pyqt5-tools",
        "cupy-cuda102",
        "panda3d",
        "opencv-python-headless",
        "paddlepaddle",
        "codeforlife-portal",
        "tensorflow-io-2.0-preview",
        "udata",
        "pulsar-client-sn",
        "cmake",
        "numpy",
        "pybullet",
        "tf-gpu",
        "codeintel",
        "ddtrace",
        "itk-core",
        "ccxt",
        "xpress",
        "itk-filtering",
        "tendenci",
        "apache-flink",
        "pyside2",
        "tensorflow-aarch64",
        "rasterio",
        "cupy-cuda111",
        "pygame",
        "taichi",
        "intel-tensorflow",
        "botocore",
        "matplotlib",
        "pulumi-azure-native",
        "megengine",
        "allennlp-pvt-nightly",
        "casadi",
        "monocdk",
        "kolibri",
        "cupy-cuda110",
        "jaxlib",
        "deepspeech",
        "ctranslate2",
        "azureml-dataprep-rslex",
        "tensorflow-rocm-enhanced",
        "spacy",
        "homeassistant",
        "pystan",
        "pyarrow",
        "cntk-gpu",
        "home-assistant-frontend",
        "aws-cdk-lib",
        "jiminy-py",
        "nimbusml",
        "simpleitk",
        "mindspore",
        "pandas",
        "h2o",
        "cityenergyanalyst",
        "mosek",
        "construct-hub",
        "aim",
        "mxnet-cu90",
        "open3d",
        "pyre-check-nightly",
        "tiledb",
        "mkl",
        "awscrt",
    ];
    assert(r@.map_values(|s: &str| s@) =~= skip_packages());
    r
}

/// Whether uploads of `name` are left out.
pub fn is_skipped_package(name: &String) -> (r: bool)
    ensures
        r == skip_packages().contains(name@),
{
    let names = skip_package_names();
    let mut i: usize = 0;
    while i < names.len()
        invariant
            i <= names@.len(),
            names@.map_values(|s: &str| s@) == skip_packages(),
            forall|j: int| 0 <= j < i ==> skip_packages()[j] != name@,
        decreases names@.len() - i,
    {
        let candidate = String::from_str(names[i]);
        if text_order(&candidate, name) == 0 {
            assert(skip_packages()[i as int] == name@);
            return true;
        }
        i = i + 1;
    }
    false
}

/// The upload a changelog entry describes, where it is the upload of a new file:
/// five values (name, version, time, action, serial), an action starting with
/// `add `, a package not in `skip_packages` and no `.exe` in the action. The file name
/// is the last word of the action.
pub open spec fn spec_parse_changelog_item(v: Seq<XmlValue>) -> Option<ChangelogView> {
    if v.len() != 5 {
        None
    } else {
        match (v[0], v[1], v[2], v[3], v[4]) {
            (
                XmlValue::String(name),
                XmlValue::String(version),
                XmlValue::Int(ts),
                XmlValue::String(action),
                XmlValue::Int(serial),
            ) => if has_prefix(action@, "add "@) && !skip_packages().contains(name@)
                && !contains_text(action@, ".exe"@) {
                Some(
                    ChangelogView {
                        package_name: name@,
                        version: version@,
                        file_name: after_last(action@, ' '),
                        ts: Timestamp { seconds: ts as i64, nanos: 0 },
                        serial: serial as u64,
                    },
                )
            } else {
                None
            },
            _ => None,
        }
    }
}

/// Reads one changelog entry; `None` where it is not the upload of a new file that
/// is scanned (see `spec_parse_changelog_item`).
pub fn parse_changelog_item(value: &[XmlValue]) -> (r: Option<ChangelogItem>)
    ensures
        match r {
            Some(item) => spec_parse_changelog_item(value@) == Some(item@),
            None => spec_parse_changelog_item(value@) is None,
        },
{
    if value.len() != 5 {
        return None;
    }
    let name = match &value[0] {
        XmlValue::String(s) => s,
        _ => return None,
    };
    let version = match &value[1] {
        XmlValue::String(s) => s,
        _ => return None,
    };
    let ts = match &value[2] {
        XmlValue::Int(t) => *t,
        _ => return None,
    };
    let action = match &value[3] {
        XmlValue::String(s) => s,
        _ => return None,
    };
    let serial = match &value[4] {
        XmlValue::Int(t) => *t,
        _ => return None,
    };
    let action_chars = chars_of(action.as_str());
    let add = chars_of("add ");
    let exe = chars_of(".exe");
    if starts_with(&action_chars, &add) && !is_skipped_package(name) && !contains(
        &action_chars,
        &exe,
    ) {
        let file_name = string_of(last_piece(&action_chars, ' ').as_slice());
        Some(
            ChangelogItem {
                package_name: name.clone(),
                version: version.clone(),
                file_name,
                ts: Timestamp { seconds: ts as i64, nanos: 0 },
                serial: serial as u64,
            },
        )
    } else {
        None
    }
}

/// The first `n` elements of `s`, or all of them when it has fewer.
pub open spec fn take_at_most<A>(s: Seq<A>, n: int) -> Seq<A> {
    if n < s.len() {
        s.take(n)
    } else {
        s
    }
}

proof fn lemma_take_at_most_push<A>(s: Seq<A>, x: A, n: int)
    requires
        n >= 0,
    ensures
        take_at_most(s.push(x), n) == if s.len() < n {
            take_at_most(s, n).push(x)
        } else {
            take_at_most(s, n)
        },
{
    if s.len() >= n {
        assert(s.push(x).take(n) =~= take_at_most(s, n));
    }
}

/// The uploads that the changelog entries describe, in order (entries that are not
/// lists, or not uploads that are scanned, give nothing).
pub open spec fn spec_changelog_items(items: Seq<XmlValue>) -> Seq<ChangelogView>
    decreases items.len(),
{
    if items.len() == 0 {
        Seq::empty()
    } else {
        let rest = spec_changelog_items(items.drop_last());
        match items.last() {
            XmlValue::Array(v) => match spec_parse_changelog_item(v@) {
                Some(c) => rest.push(c),
                None => rest,
            },
            _ => rest,
        }
    }
}

/// The first `limit` uploads of a `changelog_since_serial` answer, or an error where the
/// answer is not a list.
pub open spec fn spec_select_changelog(response: XmlValue, limit: usize) -> Result<
    Seq<ChangelogView>,
    SourceError,
> {
    match response {
        XmlValue::Array(items) => Ok(take_at_most(spec_changelog_items(items@), limit as int)),
        _ => Err(SourceError::UnknownChangelogResponse),
    }
}

/// Reads the first `limit` uploads from a `changelog_since_serial` answer.
pub fn select_changelog_items(response: &XmlValue, limit: usize) -> (r: Result<
    Vec<ChangelogItem>,
    SourceError,
>)
    ensures
        match r {
            Ok(items) => spec_select_changelog(*response, limit) == Ok::<Seq<ChangelogView>, SourceError>(
                items@.map_values(|c: ChangelogItem| c@),
            ),
            Err(e) => spec_select_changelog(*response, limit) == Err::<Seq<ChangelogView>, SourceError>(e),
        },
{
    let items = match response {
        XmlValue::Array(items) => items,
        _ => return Err(SourceError::UnknownChangelogResponse),
    };
    let mut out: Vec<ChangelogItem> = Vec::new();
    let mut i: usize = 0;
    while i < items.len()
        invariant
            i <= items@.len(),
            out@.map_values(|c: ChangelogItem| c@) == take_at_most(
                spec_changelog_items(items@.take(i as int)),
                limit as int,
            ),
        decreases items@.len() - i,
    {
        proof {
            assert(items@.take(i as int + 1).drop_last() =~= items@.take(i as int));
        }
        let ghost before = spec_changelog_items(items@.take(i as int));
        match &items[i] {
            XmlValue::Array(v) => {
                match parse_changelog_item(v.as_slice()) {
                    Some(c) => {
                        proof {
                            lemma_take_at_most_push(before, c@, limit as int);
                        }
                        if out.len() < limit {
                            let ghost cv = c@;
                            out.push(c);
                            assert(out@.map_values(|c: ChangelogItem| c@) =~= take_at_most(
                                before,
                                limit as int,
                            ).push(cv));
                        }
                    },
                    None => {},
                }
            },
            _ => {},
        }
        i = i + 1;
    }
    assert(items@.take(items@.len() as int) =~= items@);
    Ok(out)
}

/// The highest serial among the uploads.
pub open spec fn max_serial(s: Seq<ChangelogView>) -> u64
    decreases s.len(),
{
    if s.len() <= 1 {
        s[0].serial
    } else {
        let m = max_serial(s.drop_last());
        if s.last().serial >= m {
            s.last().serial
        } else {
            m
        }
    }
}

/// The latest upload time among the uploads.
pub open spec fn latest_ts(s: Seq<ChangelogView>) -> Timestamp
    decreases s.len(),
{
    if s.len() <= 1 {
        s[0].ts
    } else {
        let m = latest_ts(s.drop_last());
        if !ts_before(s.last().ts, m) {
            s.last().ts
        } else {
            m
        }
    }
}

/// The highest serial is one of the serials and no serial is higher; the latest time is
/// one of the times and no time is later.
pub proof fn lemma_changelog_maxima(s: Seq<ChangelogView>)
    requires
        s.len() > 0,
    ensures
        exists|i: int| 0 <= i < s.len() && s[i].serial == max_serial(s),
        forall|i: int| 0 <= i < s.len() ==> s[i].serial <= max_serial(s),
        exists|i: int| 0 <= i < s.len() && s[i].ts == latest_ts(s),
        forall|i: int| 0 <= i < s.len() ==> !ts_before(latest_ts(s), s[i].ts),
    decreases s.len(),
{
    if s.len() > 1 {
        let d = s.drop_last();
        lemma_changelog_maxima(d);
        assert forall|i: int| 0 <= i < s.len() implies s[i].serial <= max_serial(s) by {
            if i < s.len() - 1 {
                assert(s[i] == d[i]);
            }
        }
        assert forall|i: int| 0 <= i < s.len() implies !ts_before(latest_ts(s), s[i].ts) by {
            if i < s.len() - 1 {
                assert(s[i] == d[i]);
            }
        }
        if s.last().serial >= max_serial(d) {
            assert(s[s.len() - 1].serial == max_serial(s));
        } else {
            let k = choose|k: int| 0 <= k < d.len() && d[k].serial == max_serial(d);
            assert(s[k] == d[k]);
        }
        if !ts_before(s.last().ts, latest_ts(d)) {
            assert(s[s.len() - 1].ts == latest_ts(s));
        } else {
            let k = choose|k: int| 0 <= k < d.len() && d[k].ts == latest_ts(d);
            assert(s[k] == d[k]);
        }
    } else {
        assert(s[0].serial == max_serial(s));
        assert(s[0].ts == latest_ts(s));
    }
}

/// The highest serial and the latest time among the uploads.
pub fn changelog_maxima(items: &Vec<ChangelogItem>) -> (r: (u64, Timestamp))
    requires
        items@.len() > 0,
    ensures
        r.0 == max_serial(items@.map_values(|c: ChangelogItem| c@)),
        r.1 == latest_ts(items@.map_values(|c: ChangelogItem| c@)),
{
    let ghost v = items@.map_values(|c: ChangelogItem| c@);
    let mut serial: u64 = items[0].serial;
    let mut ts: Timestamp = items[0].ts;
    let mut i: usize = 1;
    while i < items.len()
        invariant
            1 <= i <= items@.len(),
            v == items@.map_values(|c: ChangelogItem| c@),
            serial == max_serial(v.take(i as int)),
            ts == latest_ts(v.take(i as int)),
        decreases items@.len() - i,
    {
        assert(v.take(i as int + 1).drop_last() =~= v.take(i as int));
        let item = &items[i];
        if item.serial >= serial {
            serial = item.serial;
        }
        if !item.ts.is_before(&ts) {
            ts = item.ts;
        }
        i = i + 1;
    }
    assert(v.take(items@.len() as int) =~= v);
    (serial, ts)
}

/// The uploads of one release (a package name and version).
#[derive(Debug)]
pub struct Release {
    pub name: String,
    pub version: String,
    pub changelogs: Vec<ChangelogItem>,
}

/// A release as character sequences and its uploads.
pub open spec fn release_view(r: Release) -> (Seq<char>, Seq<char>, Seq<ChangelogView>) {
    (r.name@, r.version@, r.changelogs@.map_values(|c: ChangelogItem| c@))
}

/// Index of the group for `name` and `version`, or -1 where there is none.
pub open spec fn group_index(
    g: Seq<(Seq<char>, Seq<char>, Seq<ChangelogView>)>,
    name: Seq<char>,
    version: Seq<char>,
) -> int
    decreases g.len(),
{
    if g.len() == 0 {
        -1
    } else if g.last().0 == name && g.last().1 == version {
        g.len() - 1
    } else {
        group_index(g.drop_last(), name, version)
    }
}

/// The uploads grouped by release, releases in the order they first appear, each
/// release's uploads in their order.
pub open spec fn spec_group_releases(s: Seq<ChangelogView>) -> Seq<
    (Seq<char>, Seq<char>, Seq<ChangelogView>),
>
    decreases s.len(),
{
    if s.len() == 0 {
        Seq::empty()
    } else {
        let g = spec_group_releases(s.drop_last());
        let x = s.last();
        let k = group_index(g, x.package_name, x.version);
        if k >= 0 {
            g.update(k, (g[k].0, g[k].1, g[k].2.push(x)))
        } else {
            g.push((x.package_name, x.version, seq![x]))
        }
    }
}

proof fn lemma_group_index(
    g: Seq<(Seq<char>, Seq<char>, Seq<ChangelogView>)>,
    name: Seq<char>,
    version: Seq<char>,
)
    ensures
        -1 <= group_index(g, name, version) < g.len(),
        group_index(g, name, version) >= 0 ==> g[group_index(g, name, version)].0 == name
            && g[group_index(g, name, version)].1 == version,
        group_index(g, name, version) == -1 ==> forall|j: int|
            0 <= j < g.len() ==> !(g[j].0 == name && g[j].1 == version),
    decreases g.len(),
{
    if g.len() > 0 {
        lemma_group_index(g.drop_last(), name, version);
        if !(g.last().0 == name && g.last().1 == version) {
            assert forall|j: int| 0 <= j < g.len() - 1 implies g[j] == g.drop_last()[j] by {}
        }
    }
}

/// Index of the release for `name` and `version` in `groups`, if there is one.
fn find_release(groups: &Vec<Release>, name: &String, version: &String) -> (r: Option<usize>)
    ensures
        match r {
            Some(k) => group_index(groups@.map_values(|x: Release| release_view(x)), name@, version@)
                == k,
            None => group_index(groups@.map_values(|x: Release| release_view(x)), name@, version@)
                == -1,
        },
{
    let ghost gv = groups@.map_values(|x: Release| release_view(x));
    let mut k: usize = groups.len();
    assert(gv.take(k as int) =~= gv);
    while k > 0
        invariant
            k <= groups@.len(),
            gv == groups@.map_values(|x: Release| release_view(x)),
            group_index(gv, name@, version@) == group_index(gv.take(k as int), name@, version@),
        decreases k,
    {
        let g = &groups[k - 1];
        assert(gv.take(k as int).last() == gv[k - 1]);
        if text_order(&g.name, name) == 0 && text_order(&g.version, version) == 0 {
            return Some(k - 1);
        }
        assert(gv.take(k as int).drop_last() =~= gv.take(k - 1));
        k = k - 1;
    }
    None
}

/// The uploads grouped by release (`Itertools::into_group_map` on name and version),
/// releases in the order they first appear.
pub fn group_releases(items: Vec<ChangelogItem>) -> (r: Vec<Release>)
    ensures
        r@.map_values(|x: Release| release_view(x)) == spec_group_releases(
            items@.map_values(|c: ChangelogItem| c@),
        ),
{
    let ghost all = items@.map_values(|c: ChangelogItem| c@);
    let mut groups: Vec<Release> = Vec::new();
    assert(groups@.map_values(|x: Release| release_view(x)) =~= spec_group_releases(all.take(0)));
    for c in it: items.into_iter()
        invariant
            it.seq().map_values(|c: ChangelogItem| c@) == all,
            groups@.map_values(|x: Release| release_view(x)) == spec_group_releases(
                all.take(it.index()),
            ),
    {
        let ghost before = groups@.map_values(|x: Release| release_view(x));
        let ghost cv = c@;
        proof {
            assert(all.take(it.index() + 1).drop_last() =~= all.take(it.index()));
            assert(all.take(it.index() + 1).last() == cv);
            lemma_group_index(before, cv.package_name, cv.version);
        }
        match find_release(&groups, &c.package_name, &c.version) {
            Some(k) => {
                let ghost old_groups = groups@;
                groups[k].changelogs.push(c);
                assert(groups@.len() == old_groups.len());
                assert(forall|j: int| 0 <= j < groups@.len() && j != k ==> groups@[j] == old_groups[j]);
                assert(groups@[k as int].changelogs@ == old_groups[k as int].changelogs@.push(c));
                assert(groups@[k as int].changelogs@.map_values(|c: ChangelogItem| c@) =~= old_groups[k as int].changelogs@.map_values(|c: ChangelogItem| c@).push(cv));
                assert(groups@.map_values(|x: Release| release_view(x)) =~= before.update(
                    k as int,
                    (before[k as int].0, before[k as int].1, before[k as int].2.push(cv)),
                ));
            },
            None => {
                let name = c.package_name.clone();
                let version = c.version.clone();
                let mut changelogs: Vec<ChangelogItem> = Vec::new();
                changelogs.push(c);
                assert(changelogs@.map_values(|c: ChangelogItem| c@) =~= seq![cv]);
                groups.push(Release { name, version, changelogs });
                assert(groups@.map_values(|x: Release| release_view(x)) =~= before.push(
                    (cv.package_name, cv.version, seq![cv]),
                ));
            },
        }
    }
    assert(all.take(all.len() as int) =~= all);
    groups
}

/// Grouping by release: every group is non-empty and holds only uploads of its release,
/// no release has two groups, and every upload is in the group of its release.
pub proof fn law_group_releases(s: Seq<ChangelogView>)
    ensures
        forall|k: int| 0 <= k < spec_group_releases(s).len() ==> #[trigger] spec_group_releases(s)[k].2.len() > 0,
        forall|k: int, i: int|
            0 <= k < spec_group_releases(s).len() && 0 <= i < spec_group_releases(s)[k].2.len()
                ==> #[trigger] spec_group_releases(s)[k].2[i].package_name == spec_group_releases(s)[k].0
                && spec_group_releases(s)[k].2[i].version == spec_group_releases(s)[k].1,
        forall|j: int, k: int|
            0 <= j < k < spec_group_releases(s).len() ==> !(#[trigger] spec_group_releases(s)[j].0
                == #[trigger] spec_group_releases(s)[k].0 && spec_group_releases(s)[j].1
                == spec_group_releases(s)[k].1),
        forall|i: int|
            0 <= i < s.len() ==> exists|k: int|
                0 <= k < spec_group_releases(s).len() && spec_group_releases(s)[k].0
                    == #[trigger] s[i].package_name && spec_group_releases(s)[k].1 == s[i].version
                    && spec_group_releases(s)[k].2.contains(s[i]),
    decreases s.len(),
{
    if s.len() > 0 {
        let d = s.drop_last();
        let x = s.last();
        law_group_releases(d);
        let g = spec_group_releases(d);
        lemma_group_index(g, x.package_name, x.version);
        let k0 = group_index(g, x.package_name, x.version);
        let r = spec_group_releases(s);
        if k0 >= 0 {
            assert forall|k: int, i: int| 0 <= k < r.len() && 0 <= i < r[k].2.len() implies #[trigger] r[k].2[i].package_name
                == r[k].0 && r[k].2[i].version == r[k].1 by {
                if k == k0 && i == g[k].2.len() {
                    assert(r[k].2[i] == x);
                } else if k == k0 {
                    assert(r[k].2[i] == g[k].2[i]);
                }
            }
            assert forall|i: int| 0 <= i < s.len() implies exists|k: int|
                0 <= k < r.len() && r[k].0 == #[trigger] s[i].package_name && r[k].1 == s[i].version
                    && r[k].2.contains(s[i]) by {
                if i == s.len() - 1 {
                    assert(r[k0].2[g[k0].2.len() as int] == x);
                } else {
                    assert(s[i] == d[i]);
                    let k = choose|k: int|
                        0 <= k < g.len() && g[k].0 == #[trigger] d[i].package_name && g[k].1 == d[i].version
                            && g[k].2.contains(d[i]);
                    let j = choose|j: int| 0 <= j < g[k].2.len() && g[k].2[j] == d[i];
                    if k == k0 {
                        assert(r[k].2[j] == d[i]);
                    } else {
                        assert(r[k] == g[k]);
                    }
                }
            }
        } else {
            assert forall|i: int| 0 <= i < s.len() implies exists|k: int|
                0 <= k < r.len() && r[k].0 == #[trigger] s[i].package_name && r[k].1 == s[i].version
                    && r[k].2.contains(s[i]) by {
                if i == s.len() - 1 {
                    assert(r[g.len() as int].2[0] == x);
                } else {
                    assert(s[i] == d[i]);
                    let k = choose|k: int|
                        0 <= k < g.len() && g[k].0 == #[trigger] d[i].package_name && g[k].1 == d[i].version
                            && g[k].2.contains(d[i]);
                    assert(r[k] == g[k]);
                }
            }
            assert forall|j: int, k: int| 0 <= j < k < r.len() implies !(#[trigger] r[j].0 == #[trigger] r[k].0
                && r[j].1 == r[k].1) by {
                if k == g.len() {
                    assert(r[j] == g[j]);
                }
            }
        }
    }
}

/// Where the PyPI source stands: the changelog serial it has read up to and the time of
/// the latest upload it has seen.
#[derive(Debug)]
pub struct PyPiSource {
    pub changelog_serial: u64,
    pub last_package_timestamp: Option<Timestamp>,
    pub stats: SourceStats,
}

impl PyPiSource {
    /// The saved state, or where none was saved, the start of the changelog.
    pub fn new(saved: Option<PyPiSource>) -> (r: PyPiSource)
        ensures
            match saved {
                Some(s) => r == s,
                None => r.changelog_serial == 0 && r.last_package_timestamp is None
                    && r.stats.spec_packages_searched() == 0,
            },
    {
        match saved {
            Some(s) => s,
            None => PyPiSource {
                changelog_serial: 0,
                last_package_timestamp: None,
                stats: SourceStats::new(),
            },
        }
    }

    /// The source's statistics, to be updated in place.
    pub fn get_stats(&mut self) -> (r: &mut SourceStats)
        ensures
            *r == old(self).stats,
            final(self).stats == *final(r),
            final(self).changelog_serial == old(self).changelog_serial,
            final(self).last_package_timestamp == old(self).last_package_timestamp,
    {
        &mut self.stats
    }

    /// Reads a `changelog_since_serial` answer: takes its first `limit` uploads, moves the
    /// source on to their highest serial and latest time, and groups them by release.
    /// Fails where the answer is not a list or holds no upload; the source is then unchanged.
    pub fn plan_releases(&mut self, response: &XmlValue, limit: usize) -> (r: Result<
        Vec<Release>,
        SourceError,
    >)
        ensures
            match spec_select_changelog(*response, limit) {
                Err(e) => r == Err::<Vec<Release>, SourceError>(e) && *final(self) == *old(self),
                Ok(items) => if items.len() == 0 {
                    r == Err::<Vec<Release>, SourceError>(SourceError::NoChangelogItems)
                        && *final(self) == *old(self)
                } else {
                    &&& r matches Ok(rs) && rs@.map_values(|x: Release| release_view(x))
                        == spec_group_releases(items)
                    &&& final(self).changelog_serial == max_serial(items)
                    &&& final(self).last_package_timestamp == Some(latest_ts(items))
                    &&& final(self).stats == old(self).stats
                },
            },
    {
        let items = match select_changelog_items(response, limit) {
            Ok(items) => items,
            Err(e) => return Err(e),
        };
        if items.len() == 0 {
            return Err(SourceError::NoChangelogItems);
        }
        let (serial, ts) = changelog_maxima(&items);
        self.changelog_serial = serial;
        self.last_package_timestamp = Some(ts);
        Ok(group_releases(items))
    }
}

/// A file of a release, as PyPI's JSON API lists it.
#[derive(Debug)]
pub struct PackageUrl {
    pub url: String,
    pub filename: String,
}

/// PyPI's JSON API answer for a release.
#[derive(Debug)]
pub struct PyPiResponse {
    pub urls: Vec<PackageUrl>,
}

/// Whether PyPI's answer status means the release cannot be looked up (404 or 400), in
/// which case it has no files to scan.
pub fn release_not_found(status: u16) -> (r: bool)
    ensures
        r == (status == 404 || status == 400),
{
    status == 404 || status == 400
}

/// The name of one of the uploads.
pub open spec fn uploaded(changelogs: Seq<ChangelogView>, file: Seq<char>) -> bool {
    exists|i: int| 0 <= i < changelogs.len() && changelogs[i].file_name == file
}

/// The packages to process for a release: its listed files that were uploaded (by name),
/// in order, with URLs that parse.
pub open spec fn spec_matching_packages(
    name: Seq<char>,
    version: Seq<char>,
    changelogs: Seq<ChangelogView>,
    urls: Seq<PackageUrl>,
) -> Seq<PackageView>
    decreases urls.len(),
{
    if urls.len() == 0 {
        Seq::empty()
    } else {
        let rest = spec_matching_packages(name, version, changelogs, urls.drop_last());
        let u = urls.last();
        if uploaded(changelogs, u.filename@) && spec_parse_url(u.url@) is Some {
            rest.push(
                PackageView {
                    download_url: spec_parse_url(u.url@)->0,
                    name,
                    version,
                    source: SourceType::PyPi,
                },
            )
        } else {
            rest
        }
    }
}

fn is_uploaded(changelogs: &Vec<ChangelogItem>, file: &String) -> (r: bool)
    ensures
        r == uploaded(changelogs@.map_values(|c: ChangelogItem| c@), file@),
{
    let ghost v = changelogs@.map_values(|c: ChangelogItem| c@);
    let mut i: usize = 0;
    while i < changelogs.len()
        invariant
            i <= changelogs@.len(),
            v == changelogs@.map_values(|c: ChangelogItem| c@),
            forall|j: int| 0 <= j < i ==> v[j].file_name != file@,
        decreases changelogs@.len() - i,
    {
        if text_order(&changelogs[i].file_name, file) == 0 {
            assert(v[i as int].file_name == file@);
            return true;
        }
        i = i + 1;
    }
    false
}

/// The packages to process for a release, from PyPI's JSON API answer for it.
pub fn matching_packages(release: &Release, response: PyPiResponse) -> (r: Vec<PackageToProcess>)
    ensures
        r@.map_values(|p: PackageToProcess| p@) == spec_matching_packages(
            release.name@,
            release.version@,
            release.changelogs@.map_values(|c: ChangelogItem| c@),
            response.urls@,
        ),
{
    let ghost cv = release.changelogs@.map_values(|c: ChangelogItem| c@);
    let ghost urls = response.urls@;
    let mut r: Vec<PackageToProcess> = Vec::new();
    for u in it: response.urls.into_iter()
        invariant
            it.seq() == urls,
            cv == release.changelogs@.map_values(|c: ChangelogItem| c@),
            r@.map_values(|p: PackageToProcess| p@) == spec_matching_packages(
                release.name@,
                release.version@,
                cv,
                urls.take(it.index()),
            ),
    {
        proof {
            assert(urls.take(it.index() + 1).drop_last() =~= urls.take(it.index()));
            assert(urls.take(it.index() + 1).last() == u);
        }
        if is_uploaded(&release.changelogs, &u.filename) {
            match parse_url(u.url.as_str()) {
                Some(link) => {
                    let p = PackageToProcess::new(
                        release.name.clone(),
                        release.version.clone(),
                        link,
                        SourceType::PyPi,
                    );
                    let ghost pv = p@;
                    r.push(p);
                    assert(r@.map_values(|p: PackageToProcess| p@) =~= spec_matching_packages(
                        release.name@,
                        release.version@,
                        cv,
                        urls.take(it.index()),
                    ).push(pv));
                },
                None => {},
            }
        }
    }
    assert(urls.take(urls.len() as int) =~= urls);
    r
}

/// `SliceRandom::shuffle` with `rand::thread_rng()`: puts the packages in a random
/// order. The contract states only that the same packages come out; the order is chance.
#[verifier::external_body]
fn shuffle_packages(v: &mut Vec<PackageToProcess>)
    ensures
        final(v)@.to_multiset() == old(v)@.to_multiset(),
{
    v.shuffle(&mut rand::thread_rng());
}

/// All packages found for the releases, in a random order.
pub fn shuffled_packages(found: Vec<Vec<PackageToProcess>>) -> (r: Vec<PackageToProcess>)
    ensures
        r@.to_multiset() == found@.map_values(|v: Vec<PackageToProcess>| v@).flatten().to_multiset(),
{
    let ghost all = found@.map_values(|v: Vec<PackageToProcess>| v@);
    let mut r: Vec<PackageToProcess> = Vec::new();
    for group in it: found.into_iter()
        invariant
            it.seq().map_values(|v: Vec<PackageToProcess>| v@) == all,
            r@ == all.take(it.index()).flatten(),
    {
        proof {
            assert(all.take(it.index() + 1).drop_last() =~= all.take(it.index()));
            all.take(it.index()).lemma_flatten_push(group@);
            assert(all.take(it.index()).push(group@) =~= all.take(it.index() + 1));
        }
        let ghost start = r@;
        let mut j: usize = 0;
        while j < group.len()
            invariant
                j <= group@.len(),
                r@ == start + group@.take(j as int),
            decreases group@.len() - j,
        {
            r.push(group[j].clone());
            assert(group@.take(j as int + 1) =~= group@.take(j as int).push(group@[j as int]));
            j = j + 1;
        }
        assert(group@.take(group@.len() as int) =~= group@);
    }
    assert(all.take(all.len() as int) =~= all);
    shuffle_packages(&mut r);
    r
}

/// A listed file is kept whatever place its upload has among the release's changelog
/// entries: where any entry names the file and its URL parses, the release's packages
/// include the package downloaded from that URL.
pub proof fn law_every_uploaded_file_is_kept(
    name: Seq<char>,
    version: Seq<char>,
    changelogs: Seq<ChangelogView>,
    urls: Seq<PackageUrl>,
    k: int,
    i: int,
)
    requires
        0 <= k < urls.len(),
        0 <= i < changelogs.len(),
        changelogs[i].file_name == urls[k].filename@,
        spec_parse_url(urls[k].url@) is Some,
    ensures
        spec_matching_packages(name, version, changelogs, urls).contains(
            PackageView {
                download_url: spec_parse_url(urls[k].url@)->0,
                name,
                version,
                source: SourceType::PyPi,
            },
        ),
    decreases urls.len(),
{
    let r = spec_matching_packages(name, version, changelogs, urls);
    let rest = spec_matching_packages(name, version, changelogs, urls.drop_last());
    if k == urls.len() - 1 {
        assert(uploaded(changelogs, urls.last().filename@));
        assert(r[r.len() - 1] == PackageView {
            download_url: spec_parse_url(urls[k].url@)->0,
            name,
            version,
            source: SourceType::PyPi,
        });
    } else {
        assert(urls.drop_last()[k] == urls[k]);
        law_every_uploaded_file_is_kept(name, version, changelogs, urls.drop_last(), k, i);
        let x = PackageView {
            download_url: spec_parse_url(urls[k].url@)->0,
            name,
            version,
            source: SourceType::PyPi,
        };
        let t = choose|t: int| 0 <= t < rest.len() && rest[t] == x;
        if r != rest {
            assert(r[t] == rest[t]);
        }
    }
}

/// Every package kept for a release is the release's, from PyPI, and downloaded from the
/// parsed URL of a listed file that some changelog entry of the release names.
pub proof fn law_kept_files_were_uploaded(
    name: Seq<char>,
    version: Seq<char>,
    changelogs: Seq<ChangelogView>,
    urls: Seq<PackageUrl>,
    j: int,
)
    requires
        0 <= j < spec_matching_packages(name, version, changelogs, urls).len(),
    ensures
        ({
            let p = spec_matching_packages(name, version, changelogs, urls)[j];
            &&& p.name == name
            &&& p.version == version
            &&& p.source == SourceType::PyPi
            &&& exists|k: int, i: int|
                0 <= k < urls.len() && 0 <= i < changelogs.len() && changelogs[i].file_name
                    == urls[k].filename@ && spec_parse_url(urls[k].url@) == Some(p.download_url)
        }),
    decreases urls.len(),
{
    let r = spec_matching_packages(name, version, changelogs, urls);
    let rest = spec_matching_packages(name, version, changelogs, urls.drop_last());
    if j < rest.len() {
        law_kept_files_were_uploaded(name, version, changelogs, urls.drop_last(), j);
        assert(r[j] == rest[j]);
        let (k, i) = choose|k: int, i: int|
            0 <= k < urls.drop_last().len() && 0 <= i < changelogs.len() && changelogs[i].file_name
                == urls.drop_last()[k].filename@ && spec_parse_url(urls.drop_last()[k].url@) == Some(
                rest[j].download_url,
            );
        assert(urls.drop_last()[k] == urls[k]);
    } else {
        let k = urls.len() - 1;
        assert(uploaded(changelogs, urls[k].filename@));
        let i = choose|i: int| 0 <= i < changelogs.len() && changelogs[i].file_name == urls[k].filename@;
        assert(r[j].download_url == spec_parse_url(urls[k].url@)->0);
    }
}

/// A changelog entry of five values is dropped exactly when its action does not start
/// with `add `, names an `.exe`, or its package name is one of the skipped names,
/// compared whole (a name that merely contains a skipped name is kept); otherwise it is
/// read as that upload: the entry's package, version, time, serial and the last word of
/// the action as the file name.
pub proof fn law_changelog_skip_is_by_exact_name(
    name: String,
    version: String,
    ts: i32,
    action: String,
    serial: i32,
)
    ensures
        ({
            let entry = seq![
                XmlValue::String(name),
                XmlValue::String(version),
                XmlValue::Int(ts),
                XmlValue::String(action),
                XmlValue::Int(serial),
            ];
            let skipped = exists|j: int| 0 <= j < skip_packages().len() && skip_packages()[j] == name@;
            &&& spec_parse_changelog_item(entry) is None <==> (!has_prefix(action@, "add "@)
                || contains_text(action@, ".exe"@) || skipped)
            &&& spec_parse_changelog_item(entry) is Some ==> spec_parse_changelog_item(entry) == Some(
                ChangelogView {
                    package_name: name@,
                    version: version@,
                    file_name: after_last(action@, ' '),
                    ts: Timestamp { seconds: ts as i64, nanos: 0 },
                    serial: serial as u64,
                },
            )
        }),
{
}

} // verus!
