//! The fuzzy matcher boundary.
//!
//! Scoring is done by `nucleo_matcher`. Its rank and highlight positions are
//! a deterministic function of the query and the candidate alone (the
//! matcher's scratch memory is reused across calls but never changes the
//! observable result), so both are given names here; the little its source
//! shows outright — an empty query always matches with rank zero, a query
//! longer than the candidate never matches — is stated beside them.

use vstd::prelude::*;

verus! {

/// The rank `nucleo_matcher::Matcher::fuzzy_indices` (with the default
/// configuration) gives this query against this candidate; `None` when the
/// query does not match.
pub uninterp spec fn fuzzy_rank(query: Seq<char>, cand: Seq<char>) -> Option<u16>;

/// The candidate character positions `nucleo_matcher::Matcher::fuzzy_indices`
/// reports as matched, for a query that matches.
pub uninterp spec fn fuzzy_positions(query: Seq<char>, cand: Seq<char>) -> Seq<u32>;

/// The rank half of a scoring result.
pub open spec fn rank_of(r: Option<(u16, Vec<u32>)>) -> Option<u16> {
    match r {
        Some(p) => Some(p.0),
        None => None,
    }
}

/// The highlight half of a scoring result; empty when there was no match.
pub open spec fn positions_of(r: Option<(u16, Vec<u32>)>) -> Seq<u32> {
    match r {
        Some(p) => p.1@,
        None => Seq::empty(),
    }
}

/// Whether a scoring result carries exactly these highlight positions
/// whenever it carries any.
pub open spec fn positions_match(r: Option<(u16, Vec<u32>)>, pos: Seq<u32>) -> bool {
    match r {
        Some(p) => p.1@ == pos,
        None => true,
    }
}

/// Relies on `nucleo_matcher::Matcher::fuzzy_indices` (default
/// configuration): the rank of the best fuzzy match of `query` in `cand` and
/// the matched positions, or `None` when `query` does not match. Its source
/// returns `Some(0)` outright, touching no indices, for an empty query, and
/// panics only on haystacks past `u32::MAX` characters.
#[verifier::external_body]
pub(crate) fn fuzzy_score(query: &str, cand: &str) -> (r: Option<(u16, Vec<u32>)>)
    requires
        cand@.len() <= u32::MAX,
    ensures
        rank_of(r) == fuzzy_rank(query@, cand@),
        positions_match(r, fuzzy_positions(query@, cand@)),
        query@.len() == 0 ==> rank_of(r) == Some(0u16),
        query@.len() == 0 ==> positions_of(r) == Seq::<u32>::empty(),
{
    let mut matcher = nucleo_matcher::Matcher::default();
    let q = nucleo_matcher::Utf32String::from(query);
    let c = nucleo_matcher::Utf32String::from(cand);
    let mut positions: Vec<u32> = Vec::new();
    let rank = matcher.fuzzy_indices(c.slice(..), q.slice(..), &mut positions)?;
    Some((rank, positions))
}

} // verus!
