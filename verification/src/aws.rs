//! Keys that AWS accepted, their order, and how they are built from AWS's answers.
use crate::scanners::ScannerMatch;
use crate::sources::{source_rank, SourceType};
use crate::text::{
    after_last, chars_of, last_piece, lemma_text_less_irreflexive, lemma_text_less_total,
    lemma_text_less_transitive, string_of, text_less, text_order,
};
use crate::paths::{
    components_less, lemma_components_less_irreflexive, lemma_components_less_total,
    lemma_components_less_transitive, path_components, path_order, PathComponent,
};
use core::cmp::Ordering;
use vstd::prelude::*;
use vstd::std_specs::cmp::{PartialEqSpecImpl, PartialOrdSpecImpl};

verus! {

/// A found key pair that AWS accepted, with the role it belongs to.
#[derive(Debug)]
pub struct LiveKey {
    pub scanner_match: ScannerMatch,
    pub role_name: String,
}

impl Clone for LiveKey {
    fn clone(&self) -> (r: Self)
        ensures
            r == *self,
    {
        LiveKey { scanner_match: self.scanner_match.clone(), role_name: self.role_name.clone() }
    }
}

/// The fields a live key is ordered by: registry, package name, version, access key id,
/// file path and line number.
pub open spec fn order_fields(k: LiveKey) -> (int, Seq<char>, Seq<char>, Seq<char>, Seq<PathComponent>, int) {
    (
        source_rank(k.scanner_match.downloaded_package.package.source),
        k.scanner_match.downloaded_package.package.name@,
        k.scanner_match.downloaded_package.package.version@,
        k.scanner_match.access_key@,
        path_components(k.scanner_match.rg_match.path@),
        k.scanner_match.rg_match.line_number as int,
    )
}

/// Lexicographic order on the ordering fields; paths are ordered by their components.
pub open spec fn fields_less(
    a: (int, Seq<char>, Seq<char>, Seq<char>, Seq<PathComponent>, int),
    b: (int, Seq<char>, Seq<char>, Seq<char>, Seq<PathComponent>, int),
) -> bool {
    a.0 < b.0 || (a.0 == b.0 && (text_less(a.1, b.1) || (a.1 == b.1 && (text_less(a.2, b.2) || (
    a.2 == b.2 && (text_less(a.3, b.3) || (a.3 == b.3 && (components_less(a.4, b.4) || (a.4
        == b.4 && a.5 < b.5)))))))))
}

/// The fields that settle the order of two live keys that agree on all ordering fields:
/// the path as written, the download URL, the unpack directory, the matched text and the
/// secret key.
pub open spec fn tie_fields(k: LiveKey) -> (Seq<char>, Seq<char>, Seq<char>, Seq<char>, Seq<char>) {
    (
        k.scanner_match.rg_match.path@,
        k.scanner_match.downloaded_package.package.download_url@,
        k.scanner_match.downloaded_package.directory@,
        k.scanner_match.rg_match.lines@,
        k.scanner_match.secret_key@,
    )
}

/// Lexicographic order on the tie-breaking fields, each by `text_less`.
pub open spec fn ties_less(
    a: (Seq<char>, Seq<char>, Seq<char>, Seq<char>, Seq<char>),
    b: (Seq<char>, Seq<char>, Seq<char>, Seq<char>, Seq<char>),
) -> bool {
    text_less(a.0, b.0) || (a.0 == b.0 && (text_less(a.1, b.1) || (a.1 == b.1 && (text_less(
        a.2,
        b.2,
    ) || (a.2 == b.2 && (text_less(a.3, b.3) || (a.3 == b.3 && text_less(a.4, b.4))))))))
}

/// `a` comes strictly before `b`: by the ordering fields, and where those agree, by the
/// tie-breaking fields.
pub open spec fn key_less(a: LiveKey, b: LiveKey) -> bool {
    fields_less(order_fields(a), order_fields(b)) || (order_fields(a) == order_fields(b)
        && ties_less(tie_fields(a), tie_fields(b)))
}

/// Two live keys are `==`: they come from the same scanner match.
pub open spec fn key_equal(a: LiveKey, b: LiveKey) -> bool {
    a.scanner_match@ == b.scanner_match@
}

/// The three-way comparison of two live keys.
pub open spec fn key_order(a: LiveKey, b: LiveKey) -> Ordering {
    if key_less(a, b) {
        Ordering::Less
    } else if key_less(b, a) {
        Ordering::Greater
    } else {
        Ordering::Equal
    }
}

proof fn lemma_fields_less(
    x: (int, Seq<char>, Seq<char>, Seq<char>, Seq<PathComponent>, int),
    y: (int, Seq<char>, Seq<char>, Seq<char>, Seq<PathComponent>, int),
    z: (int, Seq<char>, Seq<char>, Seq<char>, Seq<PathComponent>, int),
)
    ensures
        !fields_less(x, x),
        fields_less(x, y) && fields_less(y, z) ==> fields_less(x, z),
        fields_less(x, y) || fields_less(y, x) || x == y,
{
    lemma_text_less_irreflexive(x.1);
    lemma_text_less_irreflexive(x.2);
    lemma_text_less_irreflexive(x.3);
    lemma_components_less_irreflexive(x.4);
    if text_less(x.1, y.1) && text_less(y.1, z.1) {
        lemma_text_less_transitive(x.1, y.1, z.1);
    }
    if text_less(x.2, y.2) && text_less(y.2, z.2) {
        lemma_text_less_transitive(x.2, y.2, z.2);
    }
    if text_less(x.3, y.3) && text_less(y.3, z.3) {
        lemma_text_less_transitive(x.3, y.3, z.3);
    }
    if components_less(x.4, y.4) && components_less(y.4, z.4) {
        lemma_components_less_transitive(x.4, y.4, z.4);
    }
    lemma_text_less_total(x.1, y.1);
    lemma_text_less_total(x.2, y.2);
    lemma_text_less_total(x.3, y.3);
    lemma_components_less_total(x.4, y.4);
}

proof fn lemma_ties_less(
    x: (Seq<char>, Seq<char>, Seq<char>, Seq<char>, Seq<char>),
    y: (Seq<char>, Seq<char>, Seq<char>, Seq<char>, Seq<char>),
    z: (Seq<char>, Seq<char>, Seq<char>, Seq<char>, Seq<char>),
)
    ensures
        !ties_less(x, x),
        ties_less(x, y) && ties_less(y, z) ==> ties_less(x, z),
        ties_less(x, y) || ties_less(y, x) || x == y,
{
    lemma_text_less_irreflexive(x.0);
    lemma_text_less_irreflexive(x.1);
    lemma_text_less_irreflexive(x.2);
    lemma_text_less_irreflexive(x.3);
    lemma_text_less_irreflexive(x.4);
    if text_less(x.0, y.0) && text_less(y.0, z.0) {
        lemma_text_less_transitive(x.0, y.0, z.0);
    }
    if text_less(x.1, y.1) && text_less(y.1, z.1) {
        lemma_text_less_transitive(x.1, y.1, z.1);
    }
    if text_less(x.2, y.2) && text_less(y.2, z.2) {
        lemma_text_less_transitive(x.2, y.2, z.2);
    }
    if text_less(x.3, y.3) && text_less(y.3, z.3) {
        lemma_text_less_transitive(x.3, y.3, z.3);
    }
    if text_less(x.4, y.4) && text_less(y.4, z.4) {
        lemma_text_less_transitive(x.4, y.4, z.4);
    }
    lemma_text_less_total(x.0, y.0);
    lemma_text_less_total(x.1, y.1);
    lemma_text_less_total(x.2, y.2);
    lemma_text_less_total(x.3, y.3);
    lemma_text_less_total(x.4, y.4);
}

/// Two live keys agree on all ordering and tie-breaking fields exactly when they are `==`.
proof fn lemma_fields_agree(a: LiveKey, b: LiveKey)
    ensures
        (order_fields(a) == order_fields(b) && tie_fields(a) == tie_fields(b)) <==> key_equal(a, b),
{
    let (ma, mb) = (a.scanner_match@, b.scanner_match@);
    if order_fields(a) == order_fields(b) && tie_fields(a) == tie_fields(b) {
        assert(ma.package.source == mb.package.source);
        assert(ma.package == mb.package);
        assert(ma.rg_match == mb.rg_match);
    }
}

/// No live key comes before itself.
pub proof fn lemma_key_less_irreflexive(a: LiveKey)
    ensures
        !key_less(a, a),
{
    lemma_fields_less(order_fields(a), order_fields(a), order_fields(a));
    lemma_ties_less(tie_fields(a), tie_fields(a), tie_fields(a));
}

/// The order on live keys is transitive.
pub proof fn lemma_key_less_transitive(a: LiveKey, b: LiveKey, c: LiveKey)
    requires
        key_less(a, b),
        key_less(b, c),
    ensures
        key_less(a, c),
{
    lemma_fields_less(order_fields(a), order_fields(b), order_fields(c));
    lemma_ties_less(tie_fields(a), tie_fields(b), tie_fields(c));
}

/// Of two live keys one comes first, or they are `==`.
pub proof fn lemma_key_less_total(a: LiveKey, b: LiveKey)
    ensures
        key_less(a, b) || key_less(b, a) || key_equal(a, b),
{
    lemma_fields_less(order_fields(a), order_fields(b), order_fields(b));
    lemma_ties_less(tie_fields(a), tie_fields(b), tie_fields(b));
    lemma_fields_agree(a, b);
}

/// Of two live keys at most one comes first.
pub proof fn lemma_key_less_asymmetric(a: LiveKey, b: LiveKey)
    ensures
        !(key_less(a, b) && key_less(b, a)),
{
    if key_less(a, b) && key_less(b, a) {
        lemma_key_less_transitive(a, b, a);
        lemma_key_less_irreflexive(a);
    }
}

/// The order and `==` of live keys agree, as `Ord` asks of a type that is `Eq`: the
/// comparison is `Equal` exactly when the keys are `==`, and comparing the other way
/// round gives the reverse.
pub proof fn law_key_order_agrees_with_eq(a: LiveKey, b: LiveKey)
    ensures
        (key_order(a, b) == Ordering::Equal) <==> key_equal(a, b),
        key_order(a, b) == Ordering::Less <==> key_order(b, a) == Ordering::Greater,
{
    lemma_key_less_total(a, b);
    lemma_key_less_asymmetric(a, b);
    lemma_fields_agree(a, b);
    if key_equal(a, b) {
        lemma_fields_less(order_fields(a), order_fields(b), order_fields(b));
        lemma_ties_less(tie_fields(a), tie_fields(b), tie_fields(b));
    }
}

/// The order of live keys is a strict total order: irreflexive, transitive, and of two
/// keys that are not `==` one comes first.
pub proof fn law_key_order_is_total(a: LiveKey, b: LiveKey, c: LiveKey)
    ensures
        !key_less(a, a),
        key_less(a, b) && key_less(b, c) ==> key_less(a, c),
        key_less(a, b) || key_less(b, a) || key_equal(a, b),
{
    lemma_key_less_irreflexive(a);
    if key_less(a, b) && key_less(b, c) {
        lemma_key_less_transitive(a, b, c);
    }
    lemma_key_less_total(a, b);
}

impl LiveKey {
    /// The fields the keys are ordered by: registry, package name, version, access key id,
    /// file path and line number.
    pub fn ordering_tuple(&self) -> (r: (&SourceType, &String, &String, &String, &String, &usize))
        ensures
            *r.0 == self.scanner_match.downloaded_package.package.source,
            *r.1 == self.scanner_match.downloaded_package.package.name,
            *r.2 == self.scanner_match.downloaded_package.package.version,
            *r.3 == self.scanner_match.access_key,
            *r.4 == self.scanner_match.rg_match.path,
            *r.5 == self.scanner_match.rg_match.line_number,
    {
        (
            &self.scanner_match.downloaded_package.package.source,
            &self.scanner_match.downloaded_package.package.name,
            &self.scanner_match.downloaded_package.package.version,
            &self.scanner_match.access_key,
            &self.scanner_match.rg_match.path,
            &self.scanner_match.rg_match.line_number,
        )
    }

    /// Compares two live keys by their ordering tuples, then, where those agree, by the
    /// path as written, the download URL, the unpack directory, the matched text and the
    /// secret key, so that `Equal` comes exactly for keys that are `==`.
    pub fn compare(&self, other: &LiveKey) -> (r: Ordering)
        ensures
            r == key_order(*self, *other),
    {
        proof {
            lemma_key_less_asymmetric(*self, *other);
            lemma_key_less_irreflexive(*self);
        }
        let a = self.ordering_tuple();
        let b = other.ordering_tuple();
        let ra: u8 = rank_of(a.0);
        let rb: u8 = rank_of(b.0);
        if ra < rb {
            return Ordering::Less;
        }
        if ra > rb {
            return Ordering::Greater;
        }
        let o1 = text_order(a.1, b.1);
        if o1 != 0 {
            return if o1 < 0 { Ordering::Less } else { Ordering::Greater };
        }
        let o2 = text_order(a.2, b.2);
        if o2 != 0 {
            return if o2 < 0 { Ordering::Less } else { Ordering::Greater };
        }
        let o3 = text_order(a.3, b.3);
        if o3 != 0 {
            return if o3 < 0 { Ordering::Less } else { Ordering::Greater };
        }
        let o4 = path_order(a.4, b.4);
        if o4 != 0 {
            return if o4 < 0 { Ordering::Less } else { Ordering::Greater };
        }
        if *a.5 < *b.5 {
            return Ordering::Less;
        }
        if *a.5 > *b.5 {
            return Ordering::Greater;
        }
        let x = &self.scanner_match;
        let y = &other.scanner_match;
        let t0 = text_order(&x.rg_match.path, &y.rg_match.path);
        if t0 != 0 {
            return if t0 < 0 { Ordering::Less } else { Ordering::Greater };
        }
        let t1 = text_order(
            &x.downloaded_package.package.download_url,
            &y.downloaded_package.package.download_url,
        );
        if t1 != 0 {
            return if t1 < 0 { Ordering::Less } else { Ordering::Greater };
        }
        let t2 = text_order(&x.downloaded_package.directory, &y.downloaded_package.directory);
        if t2 != 0 {
            return if t2 < 0 { Ordering::Less } else { Ordering::Greater };
        }
        let t3 = text_order(&x.rg_match.lines, &y.rg_match.lines);
        if t3 != 0 {
            return if t3 < 0 { Ordering::Less } else { Ordering::Greater };
        }
        let t4 = text_order(&x.secret_key, &y.secret_key);
        if t4 != 0 {
            return if t4 < 0 { Ordering::Less } else { Ordering::Greater };
        }
        Ordering::Equal
    }

    /// Whether `self` comes strictly before `other` (`compare` gives `Less`).
    pub fn comes_before(&self, other: &LiveKey) -> (r: bool)
        ensures
            r == key_less(*self, *other),
    {
        match self.compare(other) {
            Ordering::Less => true,
            Ordering::Equal => false,
            Ordering::Greater => false,
        }
    }

    /// Whether two live keys come from the same scanner match.
    pub fn same_match(&self, other: &LiveKey) -> (r: bool)
        ensures
            r == key_equal(*self, *other),
    {
        let a = &self.scanner_match;
        let b = &other.scanner_match;
        let pa = &a.downloaded_package.package;
        let pb = &b.downloaded_package.package;
        pa.download_url == pb.download_url && pa.name == pb.name && pa.version == pb.version
            && pa.source == pb.source && a.downloaded_package.directory
            == b.downloaded_package.directory && a.rg_match.lines == b.rg_match.lines
            && a.rg_match.line_number == b.rg_match.line_number && a.rg_match.path
            == b.rg_match.path && a.access_key == b.access_key && a.secret_key == b.secret_key
    }
}

/// Position of a registry in the order `PyPi < RubyGems < HexPm`.
fn rank_of(s: &SourceType) -> (r: u8)
    ensures
        r as int == source_rank(*s),
{
    match s {
        SourceType::PyPi => 0,
        SourceType::RubyGems => 1,
        SourceType::HexPm => 2,
    }
}

impl PartialEq for LiveKey {
    fn eq(&self, other: &Self) -> (r: bool) {
        self.same_match(other)
    }
}

impl PartialEqSpecImpl for LiveKey {
    open spec fn obeys_eq_spec() -> bool {
        true
    }

    open spec fn eq_spec(&self, other: &LiveKey) -> bool {
        self.scanner_match@ == other.scanner_match@
    }
}

impl Eq for LiveKey {

}

impl PartialOrd for LiveKey {
    fn partial_cmp(&self, other: &Self) -> (r: Option<Ordering>) {
        Some(self.compare(other))
    }
}

impl PartialOrdSpecImpl for LiveKey {
    open spec fn obeys_partial_cmp_spec() -> bool {
        true
    }

    open spec fn partial_cmp_spec(&self, other: &LiveKey) -> Option<Ordering> {
        Some(key_order(*self, *other))
    }
}

/// The role name in an ARN: the part after its last `:`.
pub open spec fn spec_role_name(arn: Seq<char>) -> Seq<char> {
    after_last(arn, ':')
}

/// The role name in the ARN that AWS's `GetCallerIdentity` returned for a key.
pub fn role_name_from_arn(arn: &str) -> (r: String)
    ensures
        r@ == spec_role_name(arn@),
{
    let cs = chars_of(arn);
    string_of(last_piece(&cs, ':').as_slice())
}

/// A live key for a match whose credentials AWS accepted, answering with `arn`.
pub fn live_key(scanner_match: ScannerMatch, arn: &str) -> (r: LiveKey)
    ensures
        r.scanner_match == scanner_match,
        r.role_name@ == spec_role_name(arn@),
{
    LiveKey { scanner_match, role_name: role_name_from_arn(arn) }
}

/// The matches whose credentials AWS accepted, in order, each with the role name of the
/// ARN it answered with; `arns[i]` is AWS's answer for `matches[i]` (`None` when AWS
/// refused the credentials).
pub open spec fn spec_live_keys(
    matches: Seq<ScannerMatch>,
    arns: Seq<Option<String>>,
) -> Seq<(ScannerMatch, Seq<char>)>
    decreases matches.len(),
{
    if matches.len() == 0 || arns.len() != matches.len() {
        Seq::empty()
    } else {
        let rest = spec_live_keys(matches.drop_last(), arns.drop_last());
        match arns.last() {
            Some(arn) => rest.push((matches.last(), spec_role_name(arn@))),
            None => rest,
        }
    }
}

/// Live keys for the matches that AWS accepted.
pub fn collect_live_keys(matches: Vec<ScannerMatch>, arns: Vec<Option<String>>) -> (r: Vec<
    LiveKey,
>)
    requires
        matches@.len() == arns@.len(),
    ensures
        r@.map_values(|k: LiveKey| (k.scanner_match, k.role_name@)) == spec_live_keys(
            matches@,
            arns@,
        ),
{
    let ghost all = matches@;
    let mut r: Vec<LiveKey> = Vec::new();
    let mut i: usize = 0;
    for m in it: matches.into_iter()
        invariant
            it.seq() == all,
            all.len() == arns@.len(),
            i == it.index(),
            i <= all.len(),
            r@.map_values(|k: LiveKey| (k.scanner_match, k.role_name@)) == spec_live_keys(
                all.take(i as int),
                arns@.take(i as int),
            ),
    {
        assert(all.take(i as int + 1).drop_last() =~= all.take(i as int));
        assert(arns@.take(i as int + 1).drop_last() =~= arns@.take(i as int));
        match &arns[i] {
            Some(arn) => {
                let k = live_key(m, arn.as_str());
                r.push(k);
                assert(r@.map_values(|k: LiveKey| (k.scanner_match, k.role_name@)) =~= spec_live_keys(
                    all.take(i as int),
                    arns@.take(i as int),
                ).push((all[i as int], spec_role_name(arn@))));
            },
            None => {},
        }
        i = i + 1;
    }
    assert(all.take(all.len() as int) =~= all);
    assert(arns@.take(all.len() as int) =~= arns@);
    r
}

/// Keys from the same scanner match compare equal.
pub proof fn law_same_match_compares_equal(a: LiveKey, b: LiveKey)
    requires
        a.scanner_match@ == b.scanner_match@,
    ensures
        key_order(a, b) == Ordering::Equal,
{
    assert(order_fields(a) == order_fields(b));
    lemma_key_less_irreflexive(a);
}

/// The role name holds no `:` and is how the ARN ends.
pub proof fn law_role_name(arn: Seq<char>)
    ensures
        !spec_role_name(arn).contains(':'),
        spec_role_name(arn) == arn.skip(arn.len() - spec_role_name(arn).len()),
{
    crate::text::lemma_after_last(arn, ':');
}

} // verus!
