//! The limits that steer clustering.

use vstd::prelude::*;

verus! {

/// The whole-number settings of clustering. They are used as given: none is
/// rejected.
#[derive(Debug, Clone, Copy, PartialEq, Eq, Structural)]
pub struct IntelligentConfig {
    /// How many lines of a text file are read for its content.
    pub max_lines_to_read: usize,
    /// Clusters with fewer files than this are dropped.
    pub min_cluster_size: usize,
    /// The largest number of clusters to form.
    pub max_clusters: usize,
    /// The largest number of rounds of assignment and update.
    pub max_iterations: usize,
}

/// How many lines of a text file are read where nothing else is configured.
pub fn default_max_lines_to_read() -> (r: usize)
    ensures
        r == 100,
{
    100
}

/// The smallest cluster that is kept where nothing else is configured.
pub fn default_min_cluster_size() -> (r: usize)
    ensures
        r == 2,
{
    2
}

/// The largest number of clusters where nothing else is configured.
pub fn default_max_clusters() -> (r: usize)
    ensures
        r == 20,
{
    20
}

/// The largest number of rounds where nothing else is configured.
pub fn default_max_iterations() -> (r: usize)
    ensures
        r == 100,
{
    100
}

impl Default for IntelligentConfig {
    fn default() -> (r: Self)
        ensures
            r == (IntelligentConfig {
                max_lines_to_read: 100,
                min_cluster_size: 2,
                max_clusters: 20,
                max_iterations: 100,
            }),
    {
        IntelligentConfig {
            max_lines_to_read: default_max_lines_to_read(),
            min_cluster_size: default_min_cluster_size(),
            max_clusters: default_max_clusters(),
            max_iterations: default_max_iterations(),
        }
    }
}

} // verus!
