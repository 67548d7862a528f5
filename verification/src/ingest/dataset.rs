//! The identity of persisted data.

use crate::protocol::{ZcashNetwork, DATASET_VERSION, IRONWOOD_POOL};
use crate::text::{join, quoted, same_text};
use vstd::prelude::*;
#[allow(unused_imports)]
use crate::protocol::network_name;
#[allow(unused_imports)]
use crate::text::{debug_text, decimal_text};

verus! {

/// The file that names the dataset of a directory.
pub const DATASET_MARKER_FILENAME: &'static str = "dataset.json";

/// Why a directory's data cannot be used. I/O and JSON failures are kept in words.
#[derive(Debug)]
pub enum DatasetError {
    Io(String),
    Json(String),
    WrongNetwork { actual: ZcashNetwork, expected: ZcashNetwork },
    WrongDataset { pool: String, version: u32 },
    UnlabelledArtifact { artifact: String },
}

impl DatasetError {
    /// The text shown to a person.
    pub open spec fn text(&self) -> Seq<char> {
        match self {
            DatasetError::Io(reason) => "dataset I/O: "@ + reason@,
            DatasetError::Json(reason) => "invalid dataset marker: "@ + reason@,
            DatasetError::WrongNetwork { actual, expected } => "dataset is "@ + network_name(
                *actual,
            ) + "; expected "@ + network_name(*expected),
            DatasetError::WrongDataset { pool, version } => "dataset identifies pool "@
                + debug_text(pool@) + " version "@ + decimal_text(*version as nat)
                + "; expected Ironwood version 2"@,
            DatasetError::UnlabelledArtifact { artifact } => artifact@
                + " exists without dataset.json; rebuild it as Ironwood"@,
        }
    }

    /// The text shown to a person.
    pub fn message(&self) -> (s: String)
        ensures
            s@ == self.text(),
    {
        match self {
            DatasetError::Io(reason) => join("dataset I/O: ", reason.as_str()),
            DatasetError::Json(reason) => join("invalid dataset marker: ", reason.as_str()),
            DatasetError::WrongNetwork { actual, expected } => {
                let mut s = join("dataset is ", actual.as_str());
                s.append("; expected ");
                s.append(expected.as_str());
                s
            },
            DatasetError::WrongDataset { pool, version } => {
                let mut s = join("dataset identifies pool ", quoted(pool.as_str()).as_str());
                s.append(" version ");
                s.append(crate::text::decimal(*version as u64).as_str());
                s.append("; expected Ironwood version 2");
                s
            },
            DatasetError::UnlabelledArtifact { artifact } => join(
                artifact.as_str(),
                " exists without dataset.json; rebuild it as Ironwood",
            ),
        }
    }
}

/// What a marker file says.
#[derive(Debug, Clone)]
pub struct DatasetMarker {
    pub zcash_network: ZcashNetwork,
    pub pool: String,
    pub dataset_version: u32,
}

/// A file that would hold data, and whether it exists.
#[derive(Debug, Clone)]
pub struct Artifact {
    pub name: String,
    pub exists: bool,
}

/// What to do with a directory whose data may be used.
#[derive(Debug, Clone, Copy, PartialEq, Eq, Structural)]
pub enum MarkerAction {
    /// The marker is right.
    Keep,
    /// There is no data yet: write the marker.
    Write,
}

/// Whether a marker names the Ironwood dataset of this version.
pub open spec fn names_ironwood(marker: DatasetMarker) -> bool {
    marker.pool@ == IRONWOOD_POOL@ && marker.dataset_version == 2
}

/// Whether `i` is the first of `artifacts` that exists.
pub open spec fn first_existing(artifacts: Seq<Artifact>, i: int) -> bool {
    &&& 0 <= i < artifacts.len()
    &&& artifacts[i].exists
    &&& forall|j: int| 0 <= j < i ==> !(#[trigger] artifacts[j]).exists
}

/// The marker of the Ironwood dataset of a network.
pub fn marker_for(network: ZcashNetwork) -> (marker: DatasetMarker)
    ensures
        names_ironwood(marker),
        marker.zcash_network == network,
{
    DatasetMarker {
        zcash_network: network,
        pool: IRONWOOD_POOL.to_owned(),
        dataset_version: DATASET_VERSION,
    }
}

/// Decides whether a directory's data belongs to the Ironwood dataset of a
/// network. Data without a marker is refused; a directory without data gets one.
pub fn ensure_ironwood_dataset(
    marker: Option<DatasetMarker>,
    expected_network: ZcashNetwork,
    artifacts: &Vec<Artifact>,
) -> (r: Result<MarkerAction, DatasetError>)
    ensures
        match marker {
            Some(found) => if !names_ironwood(found) {
                r == Err::<MarkerAction, _>(
                    DatasetError::WrongDataset {
                        pool: found.pool,
                        version: found.dataset_version,
                    },
                )
            } else if found.zcash_network != expected_network {
                r == Err::<MarkerAction, _>(
                    DatasetError::WrongNetwork {
                        actual: found.zcash_network,
                        expected: expected_network,
                    },
                )
            } else {
                r == Ok::<_, DatasetError>(MarkerAction::Keep)
            },
            None => if exists|i: int| #[trigger] first_existing(artifacts@, i) {
                &&& r matches Err(DatasetError::UnlabelledArtifact { artifact })
                &&& exists|i: int| #[trigger]
                    first_existing(artifacts@, i) && artifact@ == artifacts@[i].name@
            } else {
                r == Ok::<_, DatasetError>(MarkerAction::Write)
            },
        },
{
    match marker {
        Some(found) => {
            if !same_text(found.pool.as_str(), IRONWOOD_POOL) || found.dataset_version
                != DATASET_VERSION {
                return Err(
                    DatasetError::WrongDataset {
                        pool: found.pool,
                        version: found.dataset_version,
                    },
                );
            }
            if found.zcash_network != expected_network {
                return Err(
                    DatasetError::WrongNetwork {
                        actual: found.zcash_network,
                        expected: expected_network,
                    },
                );
            }
            Ok(MarkerAction::Keep)
        },
        None => {
            let mut i: usize = 0;
            while i < artifacts.len()
                invariant
                    i <= artifacts@.len(),
                    marker is None,
                    forall|j: int| 0 <= j < i ==> !(#[trigger] artifacts@[j]).exists,
                decreases artifacts@.len() - i,
            {
                if artifacts[i].exists {
                    assert(first_existing(artifacts@, i as int));
                    return Err(
                        DatasetError::UnlabelledArtifact { artifact: artifacts[i].name.clone() },
                    );
                }
                i += 1;
            }
            Ok(MarkerAction::Write)
        },
    }
}

} // verus!
