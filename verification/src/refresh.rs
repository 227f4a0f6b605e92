//! The cache and its refresh step.
//!
//! The cache holds one snapshot: the dataset and the feature collection
//! derived from it, always replaced together so no reader can pair views
//! of different generations.  A refresh cycle fetches a batch outside
//! this crate and hands the outcome to `refresh`: a failed fetch, or one
//! whose batch normalizes to zero events, leaves the snapshot untouched;
//! anything else replaces it whole.

use vstd::prelude::*;
use vstd::string::*;

verus! {

use crate::knmidata::InducedBevingen;
use crate::knmidata::InducedBevingenGeoJson;
use crate::knmidata::RawEventRecord;
use crate::knmidata::normalize_batch;
use crate::knmidata::spec_batch_events;
use crate::knmidata::spec_features_of;
use crate::knmidata::spec_feature_of;

/// One consistent generation of the cache.
#[derive(Debug)]
pub struct CacheSnapshot {
    pub events: InducedBevingen,
    pub features: InducedBevingenGeoJson,
}

/// The two views of a snapshot belong together: the collection is marked
/// as such, and its features are exactly the features of the events, in
/// order.
pub open spec fn spec_snapshot_wf(s: CacheSnapshot) -> bool {
    &&& s.features@.type_ == "FeatureCollection"@
    &&& s.features@.features == spec_features_of(s.events@)
}

/// A consistent snapshot keeps its two views index-aligned: equal length,
/// and the feature at each index derived from the event at that index.
pub proof fn lemma_snapshot_aligned(s: CacheSnapshot)
    requires
        spec_snapshot_wf(s),
    ensures
        s.features@.features.len() == s.events@.len(),
        forall|i: int|
            0 <= i < s.events@.len() ==> s.features@.features[i] == spec_feature_of(
                #[trigger] s.events@[i],
            ),
{
}

/// What one refresh cycle's fetch produced.
#[derive(Debug)]
pub enum FetchOutcome {
    Fetched(Vec<RawEventRecord>),
    FetchFailed,
}

/// The cache: a single snapshot, read by many, replaced whole by the one
/// refresh task.
#[derive(Debug)]
pub struct CacheStore {
    pub snapshot: CacheSnapshot,
}

impl CacheStore {
    /// An empty, consistent store: the state before the initial load.
    pub fn new() -> (r: CacheStore)
        ensures
            spec_snapshot_wf(r.snapshot),
            r.snapshot.events@.len() == 0,
            r.snapshot.features@.features.len() == 0,
    {
        let events = InducedBevingen { events: Vec::new() };
        let features = InducedBevingenGeoJson {
            type_: "FeatureCollection".to_owned(),
            features: Vec::new(),
        };
        proof {
            assert(events@ =~= Seq::<crate::knmidata::InducedBevingView>::empty());
            assert(features@.features =~= spec_features_of(events@));
        }
        CacheStore { snapshot: CacheSnapshot { events, features } }
    }

    /// The current snapshot, for the duration of one read.
    pub fn read(&self) -> (r: &CacheSnapshot)
        ensures
            *r == self.snapshot,
    {
        &self.snapshot
    }

    /// One refresh cycle's effect on the cache.  A failed fetch, or a
    /// batch that normalizes to zero events, leaves the previous snapshot
    /// exactly as it was; a batch with events replaces the snapshot whole.
    pub fn refresh(&mut self, outcome: FetchOutcome)
        requires
            spec_snapshot_wf(old(self).snapshot),
        ensures
            spec_snapshot_wf(final(self).snapshot),
            match outcome {
                FetchOutcome::FetchFailed => *final(self) == *old(self),
                FetchOutcome::Fetched(raws) => {
                    if spec_batch_events(raws@).len() == 0 {
                        *final(self) == *old(self)
                    } else {
                        &&& final(self).snapshot.events@ == spec_batch_events(raws@)
                        &&& final(self).snapshot.features@.features == spec_features_of(
                            spec_batch_events(raws@),
                        )
                        &&& final(self).snapshot.features@.type_ == "FeatureCollection"@
                    }
                },
            },
    {
        match outcome {
            FetchOutcome::FetchFailed => {},
            FetchOutcome::Fetched(raws) => {
                let (events, features) = normalize_batch(&raws);
                if events.events.len() > 0 {
                    self.snapshot = CacheSnapshot { events, features };
                }
            },
        }
    }
}

} // verus!
