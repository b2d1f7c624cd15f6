use vstd::prelude::*;

verus! {

/// A cosine-similarity score in order-preserving integer form.
///
/// The caller that computes raw scores encodes each one so that `key`
/// grows strictly with the score; comparing keys then compares scores.
/// `nan` marks a score that is not a number: such a value is incomparable,
/// the ranking treats it as tying with everything, and it never passes the
/// similarity threshold.
#[derive(Clone, Copy, Debug, PartialEq, Eq, Structural)]
pub struct Similarity {
    pub nan: bool,
    pub key: u32,
}

/// Order key of the minimum-similarity threshold (a score of one fifth,
/// under the caller's encoding). A ranked candidate is kept only when its
/// key lies strictly above this one; the boundary itself is excluded.
pub const MIN_SIMILARITY_KEY: u32 = 0xBE4C_CCCD;

/// How many ranked candidates the decision policy inspects.
pub const TOP_K: usize = 3;

/// True when `a` comes strictly before `b` in the descending ranking.
/// A score marked `nan` is never strictly ordered against anything.
pub open spec fn ranks_before(a: Similarity, b: Similarity) -> bool {
    !a.nan && !b.nan && a.key > b.key
}

/// True when a candidate's score lies strictly above the threshold.
pub open spec fn above_threshold(s: Similarity) -> bool {
    !s.nan && s.key > MIN_SIMILARITY_KEY
}

/// Executable form of [`ranks_before`].
pub fn ranks_before_exec(a: Similarity, b: Similarity) -> (r: bool)
    ensures
        r == ranks_before(a, b),
{
    !a.nan && !b.nan && a.key > b.key
}

/// Executable form of [`above_threshold`].
pub fn above_threshold_exec(s: Similarity) -> (r: bool)
    ensures
        r == above_threshold(s),
{
    !s.nan && s.key > MIN_SIMILARITY_KEY
}

} // verus!
