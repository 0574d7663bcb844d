//! Kinds of synthetic datasets.

use vstd::prelude::*;

verus! {

/// The distribution a synthetic dataset is drawn from.
#[derive(Clone, Copy, Debug, PartialEq, Eq, Structural)]
pub enum DatasetKind {
    Clustered,
    Correlated,
    Uniform,
}

impl Default for DatasetKind {
    fn default() -> (kind: Self)
        ensures
            kind == DatasetKind::Clustered,
    {
        DatasetKind::Clustered
    }
}

impl DatasetKind {
    /// The lower-case name of the kind.
    pub open spec fn spec_name(self) -> Seq<char> {
        match self {
            DatasetKind::Clustered => "clustered"@,
            DatasetKind::Correlated => "correlated"@,
            DatasetKind::Uniform => "uniform"@,
        }
    }

    /// The lower-case name of the kind, as it is displayed.
    pub fn name(&self) -> (name: &'static str)
        ensures
            name@ == self.spec_name(),
    {
        match self {
            DatasetKind::Clustered => "clustered",
            DatasetKind::Correlated => "correlated",
            DatasetKind::Uniform => "uniform",
        }
    }
}

} // verus!
