//! The saved progress of each source between runs.
use crate::sources::SourceType;
use vstd::prelude::*;
use vstd::string::*;

verus! {

/// A source's saved progress, as JSON text; `null` where there is none.
pub type SourceData = String;

/// The saved progress of each source: one slot per registry.
#[derive(Debug)]
pub struct State {
    pypi: Option<SourceData>,
    rubygems: Option<SourceData>,
    hexpm: Option<SourceData>,
}

/// The data saved for `source`, or `null` where none is.
pub open spec fn spec_data_for(m: Map<SourceType, Seq<char>>, source: SourceType) -> Seq<char> {
    if m.contains_key(source) {
        m[source]
    } else {
        "null"@
    }
}

impl State {
    /// The slot of a source.
    pub closed spec fn slot(&self, source: SourceType) -> Option<SourceData> {
        match source {
            SourceType::PyPi => self.pypi,
            SourceType::RubyGems => self.rubygems,
            SourceType::HexPm => self.hexpm,
        }
    }
}

impl View for State {
    type V = Map<SourceType, Seq<char>>;

    closed spec fn view(&self) -> Map<SourceType, Seq<char>> {
        Map::new(
            |k: SourceType| self.slot(k) is Some,
            |k: SourceType| self.slot(k)->0@,
        )
    }
}

impl State {
    /// A state with nothing saved.
    pub fn new() -> (r: State)
        ensures
            r@ == Map::<SourceType, Seq<char>>::empty(),
    {
        let r = State { pypi: None, rubygems: None, hexpm: None };
        assert(r@ =~= Map::<SourceType, Seq<char>>::empty());
        r
    }

    /// Saves `value` as the data of `source`, replacing what was saved for it.
    pub fn update_state(&mut self, source: SourceType, value: SourceData)
        ensures
            final(self)@ == old(self)@.insert(source, value@),
    {
        let ghost v = value@;
        match source {
            SourceType::PyPi => self.pypi = Some(value),
            SourceType::RubyGems => self.rubygems = Some(value),
            SourceType::HexPm => self.hexpm = Some(value),
        }
        assert(self@ =~= old(self)@.insert(source, v));
    }

    /// The data saved for `source`, or `null` where none is.
    pub fn data_for_source(&self, source: &SourceType) -> (r: SourceData)
        ensures
            r@ == spec_data_for(self@, *source),
    {
        let slot = match source {
            SourceType::PyPi => &self.pypi,
            SourceType::RubyGems => &self.rubygems,
            SourceType::HexPm => &self.hexpm,
        };
        match slot {
            Some(d) => d.clone(),
            None => String::from_str("null"),
        }
    }

    /// The saved entries, in the order PyPI, RubyGems, Hex.
    pub fn entries(&self) -> (r: Vec<(SourceType, SourceData)>)
        ensures
            forall|i: int, j: int| 0 <= i < j < r@.len() ==> #[trigger] r@[i].0 != #[trigger] r@[j].0,
            forall|i: int| 0 <= i < r@.len() ==> self@.contains_key(#[trigger] r@[i].0)
                && self@[r@[i].0] == r@[i].1@,
            forall|k: SourceType| self@.contains_key(k) ==> exists|i: int| 0 <= i < r@.len() && #[trigger] r@[i].0 == k,
    {
        let mut r: Vec<(SourceType, SourceData)> = Vec::new();
        if let Some(d) = &self.pypi {
            r.push((SourceType::PyPi, d.clone()));
        }
        if let Some(d) = &self.rubygems {
            r.push((SourceType::RubyGems, d.clone()));
        }
        if let Some(d) = &self.hexpm {
            r.push((SourceType::HexPm, d.clone()));
        }
        assert forall|k: SourceType| self@.contains_key(k) implies exists|i: int| 0 <= i < r@.len() && #[trigger] r@[i].0 == k by {
            match k {
                SourceType::PyPi => assert(r@[0].0 == k),
                SourceType::RubyGems => {
                    if self.pypi is Some {
                        assert(r@[1].0 == k);
                    } else {
                        assert(r@[0].0 == k);
                    }
                },
                SourceType::HexPm => assert(r@[r@.len() - 1].0 == k),
            }
        }
        r
    }
}

/// What is read back for a source is what was last saved for it, and saving for one
/// source leaves what is read back for the others unchanged.
pub proof fn law_read_after_update(
    m: Map<SourceType, Seq<char>>,
    saved: SourceType,
    value: Seq<char>,
    other: SourceType,
)
    ensures
        spec_data_for(m.insert(saved, value), saved) == value,
        other != saved ==> spec_data_for(m.insert(saved, value), other) == spec_data_for(m, other),
{
}

} // verus!
