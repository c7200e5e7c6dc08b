use vstd::prelude::*;

verus! {

/// How crowded the neighbourhood of a search hit is, by the number of other
/// files near it; a crowded neighbourhood earns a larger positional bonus.
#[derive(Clone, Copy, Debug, PartialEq, Eq, Structural)]
pub enum Density {
    /// More than five neighbours.
    Dense,
    /// Three to five neighbours.
    Medium,
    /// At most two neighbours.
    Isolated,
}

/// The density of a neighbourhood of `neighbours` files.
pub open spec fn density_spec(neighbours: nat) -> Density {
    if neighbours > 5 {
        Density::Dense
    } else if neighbours > 2 {
        Density::Medium
    } else {
        Density::Isolated
    }
}

/// The density of a neighbourhood (see [`density_spec`]).
pub fn density_of(neighbours: usize) -> (d: Density)
    ensures
        d == density_spec(neighbours as nat),
{
    if neighbours > 5 {
        Density::Dense
    } else if neighbours > 2 {
        Density::Medium
    } else {
        Density::Isolated
    }
}

/// How many semantic candidates are ranked again for `limit` results: twice
/// as many.
pub fn candidate_count(limit: usize) -> (n: usize)
    requires
        limit <= usize::MAX / 2,
    ensures
        n == 2 * limit,
{
    limit * 2
}

/// Why a search could not rank anything.
#[derive(Clone, Copy, Debug, PartialEq, Eq, Structural)]
pub enum SearchError {
    /// The project has no semantic vectors yet.
    NoVectors,
}

/// A search can rank only a project that has semantic vectors.
pub fn check_vectors(count: usize) -> (r: Result<(), SearchError>)
    ensures
        r is Ok <==> count > 0,
        r is Err ==> r == Err::<(), SearchError>(SearchError::NoVectors),
{
    if count == 0 {
        Err(SearchError::NoVectors)
    } else {
        Ok(())
    }
}

} // verus!
