//! ripgrep's JSON output: its lines, the match records in it, and the matches they give.
use vstd::prelude::*;
use vstd::utf8::{decode_utf8, valid_utf8};

verus! {

/// The `lines` object of a ripgrep match record.
#[derive(Debug)]
pub struct RgMatchLines {
    pub text: String,
}

/// The `path` object of a ripgrep match record; the path as text.
#[derive(Debug)]
pub struct RgMatchPath {
    pub text: String,
}

/// A record of ripgrep's JSON output (`{"type": "match", "data": {...}}`).
#[derive(Debug)]
pub enum RgOutput {
    Match { line_number: usize, lines: RgMatchLines, path: RgMatchPath },
}

/// One line that ripgrep matched.
#[derive(Debug)]
pub struct RipGrepMatch {
    /// The matched line(s).
    pub lines: String,
    pub line_number: usize,
    /// The file the match is in, as text.
    pub path: String,
}

/// A match's fields as character sequences.
pub struct RipGrepMatchView {
    pub lines: Seq<char>,
    pub line_number: usize,
    pub path: Seq<char>,
}

impl View for RipGrepMatch {
    type V = RipGrepMatchView;

    open spec fn view(&self) -> RipGrepMatchView {
        RipGrepMatchView { lines: self.lines@, line_number: self.line_number, path: self.path@ }
    }
}

impl Clone for RipGrepMatch {
    fn clone(&self) -> (r: Self)
        ensures
            r == *self,
    {
        RipGrepMatch {
            lines: self.lines.clone(),
            line_number: self.line_number,
            path: self.path.clone(),
        }
    }
}

/// The match a record describes.
pub open spec fn spec_match_of(o: RgOutput) -> RipGrepMatchView {
    match o {
        RgOutput::Match { line_number, lines, path } => RipGrepMatchView {
            lines: lines.text@,
            line_number,
            path: path.text@,
        },
    }
}

/// The match a ripgrep record describes.
pub fn match_of(o: RgOutput) -> (r: RipGrepMatch)
    ensures
        r@ == spec_match_of(o),
{
    match o {
        RgOutput::Match { line_number, lines, path } => RipGrepMatch {
            lines: lines.text,
            line_number,
            path: path.text,
        },
    }
}

/// The matches of the records that were read, in order; lines that held no match
/// record (`None`) give nothing.
pub open spec fn spec_matches_of(outputs: Seq<Option<RgOutput>>) -> Seq<RipGrepMatchView>
    decreases outputs.len(),
{
    if outputs.len() == 0 {
        Seq::empty()
    } else {
        let rest = spec_matches_of(outputs.drop_last());
        match outputs.last() {
            Some(o) => rest.push(spec_match_of(o)),
            None => rest,
        }
    }
}

/// The match of a record that was read, or none for a line that held none.
pub open spec fn record_match(o: Option<RgOutput>) -> Option<RipGrepMatchView> {
    match o {
        Some(r) => Some(spec_match_of(r)),
        None => None,
    }
}

/// No record is dropped: the matches are exactly the matches of the records that were
/// read, one for each, in their order, whatever their paths or lines.
pub proof fn law_matches_keep_every_record(outputs: Seq<Option<RgOutput>>)
    ensures
        spec_matches_of(outputs) == outputs.filter_map(|o: Option<RgOutput>| record_match(o)),
    decreases outputs.len(),
{
    if outputs.len() > 0 {
        law_matches_keep_every_record(outputs.drop_last());
        match outputs.last() {
            Some(o) => {
                assert(spec_matches_of(outputs.drop_last()).push(spec_match_of(o)) =~= outputs.drop_last().filter_map(
                    |o: Option<RgOutput>| record_match(o),
                ) + seq![spec_match_of(o)]);
            },
            None => {},
        }
    }
}

/// Where every line held a record, there is one match per record, the `i`-th match being
/// the `i`-th record's.
pub proof fn law_one_match_per_record(outputs: Seq<Option<RgOutput>>)
    requires
        forall|i: int| 0 <= i < outputs.len() ==> #[trigger] outputs[i] is Some,
    ensures
        spec_matches_of(outputs).len() == outputs.len(),
        forall|i: int|
            0 <= i < outputs.len() ==> #[trigger] spec_matches_of(outputs)[i] == spec_match_of(
                outputs[i]->0,
            ),
    decreases outputs.len(),
{
    if outputs.len() > 0 {
        let d = outputs.drop_last();
        assert forall|i: int| 0 <= i < d.len() implies #[trigger] d[i] is Some by {
            assert(d[i] == outputs[i]);
        }
        law_one_match_per_record(d);
        assert(outputs[outputs.len() - 1] is Some);
        assert forall|i: int| 0 <= i < outputs.len() implies #[trigger] spec_matches_of(outputs)[i]
            == spec_match_of(outputs[i]->0) by {
            if i < d.len() {
                assert(d[i] == outputs[i]);
                assert(spec_matches_of(d)[i] == spec_match_of(d[i]->0));
            }
        }
    }
}

/// The matches of the records that were read, in order, skipping lines that held none.
pub fn matches_of(outputs: Vec<Option<RgOutput>>) -> (r: Vec<RipGrepMatch>)
    ensures
        r@.map_values(|m: RipGrepMatch| m@) == spec_matches_of(outputs@),
{
    let ghost all = outputs@;
    let mut r: Vec<RipGrepMatch> = Vec::new();
    for o in it: outputs.into_iter()
        invariant
            it.seq() == all,
            r@.map_values(|m: RipGrepMatch| m@) == spec_matches_of(all.take(it.index())),
    {
        assert(all.take(it.index() + 1).drop_last() =~= all.take(it.index()));
        match o {
            Some(rec) => {
                let m = match_of(rec);
                r.push(m);
                assert(r@.map_values(|m: RipGrepMatch| m@) =~= spec_matches_of(
                    all.take(it.index()),
                ).push(m@));
            },
            None => {},
        }
    }
    assert(all.take(all.len() as int) =~= all);
    r
}

/// Index of the first newline byte of `b`, or its length when it holds none.
pub open spec fn line_end(b: Seq<u8>) -> int
    decreases b.len(),
{
    if b.len() == 0 {
        0
    } else if b[0] == 10u8 {
        0
    } else {
        1 + line_end(b.drop_first())
    }
}

/// A line without the carriage return that ends it, if one does.
pub open spec fn strip_cr(line: Seq<u8>) -> Seq<u8> {
    if line.len() > 0 && line.last() == 13u8 {
        line.drop_last()
    } else {
        line
    }
}

/// The lines of `b` as `BufRead::lines` cuts them: at each newline, the newline and a
/// carriage return before it removed; a last line without a newline kept as it is.
pub open spec fn raw_lines(b: Seq<u8>) -> Seq<Seq<u8>>
    decreases b.len(),
{
    let k = line_end(b);
    if b.len() == 0 {
        Seq::empty()
    } else if 0 <= k && k < b.len() {
        seq![strip_cr(b.take(k))] + raw_lines(b.skip(k + 1))
    } else {
        seq![b]
    }
}

/// The lines that are valid UTF-8, decoded; the others are left out.
pub open spec fn decoded_lines(raw: Seq<Seq<u8>>) -> Seq<Seq<char>>
    decreases raw.len(),
{
    if raw.len() == 0 {
        Seq::empty()
    } else {
        let rest = decoded_lines(raw.drop_last());
        if valid_utf8(raw.last()) {
            rest.push(decode_utf8(raw.last()))
        } else {
            rest
        }
    }
}

/// The text lines of a program's output, as `BufRead::lines` followed by `flatten`
/// gives them.
pub open spec fn spec_output_lines(b: Seq<u8>) -> Seq<Seq<char>> {
    decoded_lines(raw_lines(b))
}

/// `String::from_utf8`: the text the bytes encode, or `None` where they are not UTF-8.
#[verifier::external_body]
fn utf8_text(bytes: &[u8]) -> (r: Option<String>)
    ensures
        r is Some == valid_utf8(bytes@),
        r matches Some(s) ==> s@ == decode_utf8(bytes@),
{
    match String::from_utf8(bytes.to_vec()) {
        Ok(s) => Some(s),
        Err(_) => None,
    }
}

proof fn lemma_line_end(b: Seq<u8>, k: int)
    requires
        0 <= k <= b.len(),
        k == b.len() || b[k] == 10u8,
        forall|j: int| 0 <= j < k ==> b[j] != 10u8,
    ensures
        line_end(b) == k,
    decreases k,
{
    if k > 0 {
        lemma_line_end(b.drop_first(), k - 1);
    }
}

/// The bytes `b[from..to]`.
fn copy_range(b: &[u8], from: usize, to: usize) -> (r: Vec<u8>)
    requires
        from <= to <= b@.len(),
    ensures
        r@ == b@.subrange(from as int, to as int),
{
    let mut r: Vec<u8> = Vec::new();
    let mut i: usize = from;
    while i < to
        invariant
            from <= i <= to,
            to <= b@.len(),
            r@ == b@.subrange(from as int, i as int),
        decreases to - i,
    {
        r.push(b[i]);
        assert(b@.subrange(from as int, i as int + 1) =~= b@.subrange(from as int, i as int).push(
            b@[i as int],
        ));
        i = i + 1;
    }
    r
}

/// The raw lines of `b`.
fn split_raw_lines(b: &[u8]) -> (r: Vec<Vec<u8>>)
    ensures
        r@.map_values(|v: Vec<u8>| v@) == raw_lines(b@),
{
    let mut r: Vec<Vec<u8>> = Vec::new();
    let mut start: usize = 0;
    let mut i: usize = 0;
    assert(b@.skip(0) =~= b@);
    assert(r@.map_values(|v: Vec<u8>| v@) + raw_lines(b@) =~= raw_lines(b@));
    while i < b.len()
        invariant
            start <= i <= b@.len(),
            forall|j: int| start <= j < i ==> b@[j] != 10u8,
            raw_lines(b@) == r@.map_values(|v: Vec<u8>| v@) + raw_lines(b@.skip(start as int)),
        decreases b@.len() - i,
    {
        if b[i] == 10u8 {
            let ghost rest = b@.skip(start as int);
            proof {
                lemma_line_end(rest, i - start);
                assert(rest.take(i - start) =~= b@.subrange(start as int, i as int));
                assert(rest.skip(i - start + 1) =~= b@.skip(i + 1));
            }
            let mut line = copy_range(b, start, i);
            if line.len() > 0 && line[line.len() - 1] == 13u8 {
                line.pop();
            }
            let ghost line_view = line@;
            r.push(line);
            proof {
                assert(line_view == strip_cr(b@.subrange(start as int, i as int)));
                assert(r@.map_values(|v: Vec<u8>| v@) =~= (r@.drop_last().map_values(
                    |v: Vec<u8>| v@,
                )).push(line_view));
            }
            start = i + 1;
        }
        i = i + 1;
    }
    if start < b.len() {
        let ghost rest = b@.skip(start as int);
        proof {
            lemma_line_end(rest, rest.len() as int);
            assert(raw_lines(rest) == seq![rest]);
        }
        let line = copy_range(b, start, b.len());
        let ghost line_view = line@;
        r.push(line);
        proof {
            assert(line_view =~= rest);
            assert(r@.map_values(|v: Vec<u8>| v@) =~= (r@.drop_last().map_values(|v: Vec<u8>| v@)).push(
                line_view,
            ));
            assert(raw_lines(b@.skip(b@.len() as int)) =~= Seq::<Seq<u8>>::empty());
        }
    } else {
        assert(b@.skip(start as int) =~= Seq::<u8>::empty());
    }
    r
}

/// The text lines of a program's output (`BufRead::lines`, dropping lines that are not
/// UTF-8), in order.
pub fn output_lines(b: &[u8]) -> (r: Vec<String>)
    ensures
        r@.map_values(|s: String| s@) == spec_output_lines(b@),
{
    let raw = split_raw_lines(b);
    let ghost raw_view = raw@.map_values(|v: Vec<u8>| v@);
    let mut r: Vec<String> = Vec::new();
    let mut i: usize = 0;
    while i < raw.len()
        invariant
            i <= raw@.len(),
            raw_view == raw@.map_values(|v: Vec<u8>| v@),
            r@.map_values(|s: String| s@) == decoded_lines(raw_view.take(i as int)),
        decreases raw@.len() - i,
    {
        assert(raw_view.take(i as int + 1).drop_last() =~= raw_view.take(i as int));
        assert(raw_view[i as int] == raw@[i as int]@);
        match utf8_text(raw[i].as_slice()) {
            Some(s) => {
                let ghost sv = s@;
                r.push(s);
                assert(r@.map_values(|s: String| s@) =~= decoded_lines(raw_view.take(i as int)).push(
                    sv,
                ));
            },
            None => {},
        }
        i = i + 1;
    }
    assert(raw_view.take(raw@.len() as int) =~= raw_view);
    r
}

} // verus!
