//! The read side: the three queries served from the cache.
//!
//! Two return a cached view as it stands; the third filters the feature
//! collection to the features whose datetime lies within an inclusive
//! year range, keeping their relative order.  A reversed range selects
//! nothing, by the same rule rather than as an error.

use vstd::prelude::*;
use vstd::string::*;
use vstd::seq_lib::*;

verus! {

use crate::timestamp::Timestamp;
use crate::timestamp::spec_le;
use crate::timestamp::spec_outcome_key;
use crate::knmidata::InducedBevingen;
use crate::knmidata::InducedBevingGeoJson;
use crate::knmidata::InducedBevingGeoJsonView;
use crate::knmidata::InducedBevingenGeoJson;
use crate::refresh::CacheStore;

/// Bounds of a year-range query, both inclusive and both required.
#[derive(Debug, Clone, Copy, PartialEq, Eq, Structural)]
pub struct QueryParams {
    pub start_year: i32,
    pub end_year: i32,
}

/// The first moment of a year.
pub open spec fn spec_year_start(y: i32) -> Timestamp {
    Timestamp { year: y, month: 1, day: 1, hour: 0, minute: 0, second: 0 }
}

/// The last counted moment of a year.
pub open spec fn spec_year_end(y: i32) -> Timestamp {
    Timestamp { year: y, month: 12, day: 31, hour: 23, minute: 59, second: 59 }
}

/// A feature's datetime lies within the inclusive year range.
pub open spec fn spec_in_range(f: InducedBevingGeoJsonView, start_year: i32, end_year: i32) -> bool {
    &&& spec_le(spec_year_start(start_year), spec_outcome_key(f.datetime))
    &&& spec_le(spec_outcome_key(f.datetime), spec_year_end(end_year))
}

/// The cached dataset, as it stands.
pub fn induced_bevingen(store: &CacheStore) -> (r: &InducedBevingen)
    ensures
        *r == store.snapshot.events,
{
    &store.read().events
}

/// The cached feature collection, as it stands.
pub fn induced_bevingen_geojson(store: &CacheStore) -> (r: &InducedBevingenGeoJson)
    ensures
        *r == store.snapshot.features,
{
    &store.read().features
}

proof fn lemma_filter_take_succ<A>(s: Seq<A>, p: spec_fn(A) -> bool, i: int)
    requires
        0 <= i < s.len(),
    ensures
        s.take(i + 1).filter(p) == s.take(i).filter(p) + (if p(s[i]) {
            seq![s[i]]
        } else {
            Seq::<A>::empty()
        }),
{
    reveal(Seq::filter);
    assert(s.take(i + 1).drop_last() =~= s.take(i));
    assert(s.take(i + 1).last() == s[i]);
}

/// The features whose datetime lies within the inclusive year range, in
/// their cached order.  A start year above the end year selects nothing.
pub fn induced_bevingen_geojson_query(store: &CacheStore, query: &QueryParams) -> (r:
    InducedBevingenGeoJson)
    ensures
        r@.type_ == "FeatureCollection"@,
        r@.features == store.snapshot.features@.features.filter(
            |f: InducedBevingGeoJsonView| spec_in_range(f, query.start_year, query.end_year),
        ),
        query.start_year > query.end_year ==> r@.features.len() == 0,
{
    let fs = &store.read().features.features;
    let ghost orig: Seq<InducedBevingGeoJsonView> = store.snapshot.features@.features;
    let ghost pred = |f: InducedBevingGeoJsonView|
        spec_in_range(f, query.start_year, query.end_year);
    let start = Timestamp {
        year: query.start_year,
        month: 1,
        day: 1,
        hour: 0,
        minute: 0,
        second: 0,
    };
    let end = Timestamp {
        year: query.end_year,
        month: 12,
        day: 31,
        hour: 23,
        minute: 59,
        second: 59,
    };
    let mut out: Vec<InducedBevingGeoJson> = Vec::new();
    let mut i: usize = 0;
    proof {
        assert(out@.map_values(|f: InducedBevingGeoJson| f@) =~= orig.take(0).filter(pred));
        assert(orig.take(0) =~= Seq::<InducedBevingGeoJsonView>::empty());
        reveal(Seq::filter);
    }
    while i < fs.len()
        invariant
            i <= fs@.len(),
            fs@.map_values(|f: InducedBevingGeoJson| f@) == orig,
            start == spec_year_start(query.start_year),
            end == spec_year_end(query.end_year),
            pred == (|f: InducedBevingGeoJsonView|
                spec_in_range(f, query.start_year, query.end_year)),
            out@.map_values(|f: InducedBevingGeoJson| f@) == orig.take(i as int).filter(pred),
        decreases fs@.len() - i,
    {
        let f = &fs[i];
        let key = f.datetime.key();
        proof {
            lemma_filter_take_succ(orig, pred, i as int);
            assert(orig[i as int] == fs@[i as int]@);
        }
        if start.le(key) && key.le(end) {
            let ghost old_out = out@;
            out.push(f.clone());
            proof {
                assert(out@.map_values(|f2: InducedBevingGeoJson| f2@) =~= old_out.map_values(
                    |f2: InducedBevingGeoJson| f2@,
                ).push(out@.last()@));
                assert(out@.map_values(|f2: InducedBevingGeoJson| f2@) =~= orig.take(
                    i + 1,
                ).filter(pred));
            }
        } else {
            proof {
                assert(!pred(orig[i as int]));
                assert(out@.map_values(|f2: InducedBevingGeoJson| f2@) =~= orig.take(
                    i + 1,
                ).filter(pred));
            }
        }
        i = i + 1;
    }
    proof {
        assert(orig.take(fs@.len() as int) =~= orig);
        if query.start_year > query.end_year {
            assert forall|j: int| 0 <= j < orig.len() implies !pred(#[trigger] orig[j]) by {
                assert(!spec_in_range(orig[j], query.start_year, query.end_year));
            }
            assert(orig.all(|x: InducedBevingGeoJsonView| !pred(x)));
            orig.lemma_all_neg_filter_empty(pred);
        }
    }
    InducedBevingenGeoJson { type_: "FeatureCollection".to_owned(), features: out }
}

} // verus!
