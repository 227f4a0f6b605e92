//! Feed records and their normalized forms.
//!
//! A raw feed record arrives with every numeric field as a JSON number or
//! a numeric string.  Normalization parses those fields into nano fixed
//! point, dropping a record whose numbers do not parse or whose position
//! lies outside the coordinate domain, and derives from each kept event a
//! GeoJSON-like feature: the projected RD point, the year taken from the
//! date string, and the combined datetime used for range filtering.

use vstd::prelude::*;
use vstd::string::*;

verus! {

use crate::numeric::RawNumber;
use crate::numeric::RawNumberView;
use crate::numeric::spec_raw_number_text;
use crate::numeric::spec_parse_nano;
use crate::numeric::spec_all_digits;
use crate::numeric::spec_digits_val;
use crate::numeric::parse_raw_number;
use crate::numeric::lemma_digits_val_step;
use crate::numeric::lemma_digits_val_take_le;
use crate::timestamp::TimestampOutcome;
use crate::timestamp::TimestampOutcomeView;
use crate::timestamp::spec_parse_datetime;
use crate::timestamp::spec_is_digit;
use crate::timestamp::parse_date_time_parts;
use crate::rijksdriehoekstelsel::WGS84Coordinate;
use crate::rijksdriehoekstelsel::spec_rd_x;
use crate::rijksdriehoekstelsel::spec_rd_y;

/// A feed record as fetched, before any parsing.
#[derive(Debug)]
pub struct RawEventRecord {
    pub date: String,
    pub depth: RawNumber,
    pub evaluation_mode: String,
    pub lat: RawNumber,
    pub lon: RawNumber,
    pub mag: RawNumber,
    pub place: String,
    pub time: String,
    pub type_: String,
}

pub struct RawEventRecordView {
    pub date: Seq<char>,
    pub depth: RawNumberView,
    pub evaluation_mode: Seq<char>,
    pub lat: RawNumberView,
    pub lon: RawNumberView,
    pub mag: RawNumberView,
    pub place: Seq<char>,
    pub time: Seq<char>,
    pub type_: Seq<char>,
}

impl View for RawEventRecord {
    type V = RawEventRecordView;

    open spec fn view(&self) -> RawEventRecordView {
        RawEventRecordView {
            date: self.date@,
            depth: self.depth@,
            evaluation_mode: self.evaluation_mode@,
            lat: self.lat@,
            lon: self.lon@,
            mag: self.mag@,
            place: self.place@,
            time: self.time@,
            type_: self.type_@,
        }
    }
}

/// A normalized seismic event: the raw record with every numeric field
/// parsed into nano units.
#[derive(Debug)]
pub struct InducedBeving {
    pub date: String,
    pub depth: i64,
    pub evaluation_mode: String,
    pub lat: i64,
    pub lon: i64,
    pub mag: i64,
    pub place: String,
    pub time: String,
    pub type_: String,
}

pub struct InducedBevingView {
    pub date: Seq<char>,
    pub depth: int,
    pub evaluation_mode: Seq<char>,
    pub lat: int,
    pub lon: int,
    pub mag: int,
    pub place: Seq<char>,
    pub time: Seq<char>,
    pub type_: Seq<char>,
}

impl View for InducedBeving {
    type V = InducedBevingView;

    open spec fn view(&self) -> InducedBevingView {
        InducedBevingView {
            date: self.date@,
            depth: self.depth as int,
            evaluation_mode: self.evaluation_mode@,
            lat: self.lat as int,
            lon: self.lon as int,
            mag: self.mag as int,
            place: self.place@,
            time: self.time@,
            type_: self.type_@,
        }
    }
}

impl Clone for InducedBeving {
    fn clone(&self) -> (r: Self)
        ensures
            r@ == self@,
    {
        InducedBeving {
            date: self.date.clone(),
            depth: self.depth,
            evaluation_mode: self.evaluation_mode.clone(),
            lat: self.lat,
            lon: self.lon,
            mag: self.mag,
            place: self.place.clone(),
            time: self.time.clone(),
            type_: self.type_.clone(),
        }
    }
}

/// The position of an event lies within the domain of the coordinate
/// conversion.
pub open spec fn spec_beving_wf(v: InducedBevingView) -> bool {
    &&& -90_000_000_000 <= v.lat <= 90_000_000_000
    &&& -180_000_000_000 <= v.lon <= 180_000_000_000
}

/// What normalizing one raw record yields: `None` drops the record, when
/// a numeric field fails to parse or the position lies outside the
/// coordinate domain.
pub open spec fn spec_normalize_record(r: RawEventRecordView) -> Option<InducedBevingView> {
    match (spec_parse_nano(spec_raw_number_text(r.depth)), spec_parse_nano(
        spec_raw_number_text(r.lat),
    ), spec_parse_nano(spec_raw_number_text(r.lon)), spec_parse_nano(
        spec_raw_number_text(r.mag),
    )) {
        (Some(d), Some(la), Some(lo), Some(m)) => {
            if -90_000_000_000 <= la <= 90_000_000_000 && -180_000_000_000 <= lo
                <= 180_000_000_000 {
                Some(
                    InducedBevingView {
                        date: r.date,
                        depth: d,
                        evaluation_mode: r.evaluation_mode,
                        lat: la,
                        lon: lo,
                        mag: m,
                        place: r.place,
                        time: r.time,
                        type_: r.type_,
                    },
                )
            } else {
                None
            }
        },
        _ => None,
    }
}

impl InducedBeving {
    /// Normalizes one raw record; `None` drops it.
    pub fn from_raw(raw: &RawEventRecord) -> (r: Option<InducedBeving>)
        ensures
            match (r, spec_normalize_record(raw@)) {
                (Some(b), Some(v)) => b@ == v && spec_beving_wf(b@),
                (None, None) => true,
                _ => false,
            },
    {
        let d = parse_raw_number(&raw.depth);
        let la = parse_raw_number(&raw.lat);
        let lo = parse_raw_number(&raw.lon);
        let m = parse_raw_number(&raw.mag);
        match (d, la, lo, m) {
            (Some(d), Some(la), Some(lo), Some(m)) => {
                if -90_000_000_000 <= la && la <= 90_000_000_000 && -180_000_000_000 <= lo && lo
                    <= 180_000_000_000 {
                    Some(
                        InducedBeving {
                            date: raw.date.clone(),
                            depth: d,
                            evaluation_mode: raw.evaluation_mode.clone(),
                            lat: la,
                            lon: lo,
                            mag: m,
                            place: raw.place.clone(),
                            time: raw.time.clone(),
                            type_: raw.type_.clone(),
                        },
                    )
                } else {
                    None
                }
            },
            _ => None,
        }
    }
}

/// A GeoJSON point geometry in the RD planar system.
#[derive(Debug)]
pub struct PointRD {
    pub type_: String,
    pub coordinates: (i64, i64),
}

pub struct PointRDView {
    pub type_: Seq<char>,
    pub coordinates: (int, int),
}

impl View for PointRD {
    type V = PointRDView;

    open spec fn view(&self) -> PointRDView {
        PointRDView {
            type_: self.type_@,
            coordinates: (self.coordinates.0 as int, self.coordinates.1 as int),
        }
    }
}

impl Clone for PointRD {
    fn clone(&self) -> (r: Self)
        ensures
            r@ == self@,
    {
        PointRD { type_: self.type_.clone(), coordinates: (self.coordinates.0, self.coordinates.1) }
    }
}

impl PointRD {
    /// Projects a position into a GeoJSON point.
    pub fn from_wgs84(wgs84: &WGS84Coordinate) -> (r: PointRD)
        requires
            wgs84.wf(),
        ensures
            r@.type_ == "Point"@,
            r@.coordinates.0 == spec_rd_x(wgs84.lat as int, wgs84.lon as int),
            r@.coordinates.1 == spec_rd_y(wgs84.lat as int, wgs84.lon as int),
    {
        let rdnew = wgs84.to_rdnew();
        PointRD { type_: "Point".to_owned(), coordinates: (rdnew.x, rdnew.y) }
    }
}

/// The properties carried by one feature.
#[derive(Debug)]
pub struct InducedProperties {
    pub date: String,
    pub year: i32,
    pub depth: i64,
    pub evaluation_mode: String,
    pub mag: i64,
    pub place: String,
    pub time: String,
    pub datetime: TimestampOutcome,
}

pub struct InducedPropertiesView {
    pub date: Seq<char>,
    pub year: int,
    pub depth: int,
    pub evaluation_mode: Seq<char>,
    pub mag: int,
    pub place: Seq<char>,
    pub time: Seq<char>,
    pub datetime: TimestampOutcomeView,
}

impl View for InducedProperties {
    type V = InducedPropertiesView;

    open spec fn view(&self) -> InducedPropertiesView {
        InducedPropertiesView {
            date: self.date@,
            year: self.year as int,
            depth: self.depth as int,
            evaluation_mode: self.evaluation_mode@,
            mag: self.mag as int,
            place: self.place@,
            time: self.time@,
            datetime: self.datetime@,
        }
    }
}

impl Clone for InducedProperties {
    fn clone(&self) -> (r: Self)
        ensures
            r@ == self@,
    {
        InducedProperties {
            date: self.date.clone(),
            year: self.year,
            depth: self.depth,
            evaluation_mode: self.evaluation_mode.clone(),
            mag: self.mag,
            place: self.place.clone(),
            time: self.time.clone(),
            datetime: self.datetime.clone(),
        }
    }
}

/// One event in GeoJSON-like feature form.  The top-level `datetime`
/// duplicates the one in the properties; it is the internal sort and
/// filter key and never serialized.
#[derive(Debug)]
pub struct InducedBevingGeoJson {
    pub type_: String,
    pub geometry: PointRD,
    pub properties: InducedProperties,
    pub datetime: TimestampOutcome,
}

pub struct InducedBevingGeoJsonView {
    pub type_: Seq<char>,
    pub geometry: PointRDView,
    pub properties: InducedPropertiesView,
    pub datetime: TimestampOutcomeView,
}

impl View for InducedBevingGeoJson {
    type V = InducedBevingGeoJsonView;

    open spec fn view(&self) -> InducedBevingGeoJsonView {
        InducedBevingGeoJsonView {
            type_: self.type_@,
            geometry: self.geometry@,
            properties: self.properties@,
            datetime: self.datetime@,
        }
    }
}

impl Clone for InducedBevingGeoJson {
    fn clone(&self) -> (r: Self)
        ensures
            r@ == self@,
    {
        InducedBevingGeoJson {
            type_: self.type_.clone(),
            geometry: self.geometry.clone(),
            properties: self.properties.clone(),
            datetime: self.datetime.clone(),
        }
    }
}

/// The feature derived from a normalized event.
pub open spec fn spec_feature_of(e: InducedBevingView) -> InducedBevingGeoJsonView {
    let dt = spec_parse_datetime(e.date + seq![' '] + e.time);
    InducedBevingGeoJsonView {
        type_: "Feature"@,
        geometry: PointRDView {
            type_: "Point"@,
            coordinates: (spec_rd_x(e.lat, e.lon), spec_rd_y(e.lat, e.lon)),
        },
        properties: InducedPropertiesView {
            date: e.date,
            year: spec_year_or_zero(e.date),
            depth: e.depth,
            evaluation_mode: e.evaluation_mode,
            mag: e.mag,
            place: e.place,
            time: e.time,
            datetime: dt,
        },
        datetime: dt,
    }
}

impl InducedBevingGeoJson {
    /// Builds the feature of a normalized event: projected geometry, the
    /// year of its date string, and the combined datetime.
    pub fn from_beving(e: &InducedBeving) -> (r: InducedBevingGeoJson)
        requires
            spec_beving_wf(e@),
        ensures
            r@ == spec_feature_of(e@),
    {
        let wgs84 = WGS84Coordinate::new(e.lat, e.lon);
        let geometry = PointRD::from_wgs84(&wgs84);
        let datetime = parse_date_time_parts(e.date.as_str(), e.time.as_str());
        let datetime_props = datetime.clone();
        let year = try_get_year(e.date.as_str());
        InducedBevingGeoJson {
            type_: "Feature".to_owned(),
            geometry,
            properties: InducedProperties {
                date: e.date.clone(),
                year,
                depth: e.depth,
                evaluation_mode: e.evaluation_mode.clone(),
                mag: e.mag,
                place: e.place.clone(),
                time: e.time.clone(),
                datetime: datetime_props,
            },
            datetime,
        }
    }
}

/// The dataset: normalized events in upstream order.
#[derive(Debug)]
pub struct InducedBevingen {
    pub events: Vec<InducedBeving>,
}

impl View for InducedBevingen {
    type V = Seq<InducedBevingView>;

    open spec fn view(&self) -> Seq<InducedBevingView> {
        self.events@.map_values(|e: InducedBeving| e@)
    }
}

/// The feature collection derived from a dataset, index-aligned with it.
#[derive(Debug)]
pub struct InducedBevingenGeoJson {
    pub type_: String,
    pub features: Vec<InducedBevingGeoJson>,
}

pub struct InducedBevingenGeoJsonView {
    pub type_: Seq<char>,
    pub features: Seq<InducedBevingGeoJsonView>,
}

impl View for InducedBevingenGeoJson {
    type V = InducedBevingenGeoJsonView;

    open spec fn view(&self) -> InducedBevingenGeoJsonView {
        InducedBevingenGeoJsonView {
            type_: self.type_@,
            features: self.features@.map_values(|f: InducedBevingGeoJson| f@),
        }
    }
}

/// The events a batch of raw records normalizes to, in order.
pub open spec fn spec_batch_events(rs: Seq<RawEventRecord>) -> Seq<InducedBevingView> {
    rs.map_values(|x: RawEventRecord| x@).filter_map(
        |rv: RawEventRecordView| spec_normalize_record(rv),
    )
}

/// The features of a sequence of events, index by index.
pub open spec fn spec_features_of(es: Seq<InducedBevingView>) -> Seq<InducedBevingGeoJsonView> {
    es.map_values(|e: InducedBevingView| spec_feature_of(e))
}

/// Normalizes a whole fetched batch into the two derived views: the
/// dataset of kept events and its index-aligned feature collection.
pub fn normalize_batch(raws: &Vec<RawEventRecord>) -> (r: (InducedBevingen, InducedBevingenGeoJson))
    ensures
        r.0@ == spec_batch_events(raws@),
        r.1@.type_ == "FeatureCollection"@,
        r.1@.features == spec_features_of(r.0@),
{
    let mut events: Vec<InducedBeving> = Vec::new();
    let mut features: Vec<InducedBevingGeoJson> = Vec::new();
    let ghost mapped: Seq<RawEventRecordView> = raws@.map_values(|x: RawEventRecord| x@);
    let mut i: usize = 0;
    proof {
        assert(events@.map_values(|e: InducedBeving| e@) =~= mapped.take(0).filter_map(
            |rv: RawEventRecordView| spec_normalize_record(rv),
        ));
        assert(mapped.take(0).filter_map(|rv: RawEventRecordView| spec_normalize_record(rv))
            =~= Seq::<InducedBevingView>::empty());
        assert(features@.map_values(|f: InducedBevingGeoJson| f@) =~= spec_features_of(
            events@.map_values(|e: InducedBeving| e@),
        ));
    }
    while i < raws.len()
        invariant
            i <= raws@.len(),
            mapped == raws@.map_values(|x: RawEventRecord| x@),
            events@.map_values(|e: InducedBeving| e@) == mapped.take(i as int).filter_map(
                |rv: RawEventRecordView| spec_normalize_record(rv),
            ),
            features@.map_values(|f: InducedBevingGeoJson| f@) == spec_features_of(
                events@.map_values(|e: InducedBeving| e@),
            ),
        decreases raws@.len() - i,
    {
        let b = InducedBeving::from_raw(&raws[i]);
        proof {
            mapped.lemma_filter_map_take_succ(
                |rv: RawEventRecordView| spec_normalize_record(rv),
                i as int,
            );
            assert(mapped[i as int] == raws@[i as int]@);
        }
        match b {
            Some(bv) => {
                let f = InducedBevingGeoJson::from_beving(&bv);
                let ghost old_events = events@;
                let ghost old_features = features@;
                events.push(bv);
                features.push(f);
                proof {
                    assert(events@.map_values(|e: InducedBeving| e@) =~= old_events.map_values(
                        |e: InducedBeving| e@,
                    ).push(events@.last()@));
                    assert(features@.map_values(|f2: InducedBevingGeoJson| f2@)
                        =~= old_features.map_values(|f2: InducedBevingGeoJson| f2@).push(
                        features@.last()@,
                    ));
                    assert(events@.map_values(|e: InducedBeving| e@) =~= mapped.take(
                        i + 1,
                    ).filter_map(|rv: RawEventRecordView| spec_normalize_record(rv)));
                    assert(features@.map_values(|f2: InducedBevingGeoJson| f2@)
                        =~= spec_features_of(events@.map_values(|e: InducedBeving| e@)));
                }
            },
            None => {
                proof {
                    assert(events@.map_values(|e: InducedBeving| e@) =~= mapped.take(
                        i + 1,
                    ).filter_map(|rv: RawEventRecordView| spec_normalize_record(rv)));
                }
            },
        }
        i = i + 1;
    }
    proof {
        assert(mapped.take(raws@.len() as int) =~= mapped);
    }
    (
        InducedBevingen { events },
        InducedBevingenGeoJson { type_: "FeatureCollection".to_owned(), features },
    )
}

/// A position `p` splits a date string at its first dash: no dash stands
/// before `p`, and `p` is either a dash or the end.
pub open spec fn spec_year_split_at(s: Seq<char>, p: int) -> bool {
    &&& 0 <= p <= s.len()
    &&& forall|i: int| 0 <= i < p ==> s[i] != '-'
    &&& (p < s.len() ==> s[p] == '-')
}

/// The part of a date string before its first dash.
pub open spec fn spec_year_prefix(s: Seq<char>) -> Seq<char> {
    s.take(choose|p: int| spec_year_split_at(s, p))
}

/// The digits of the year: the prefix with an optional leading plus sign
/// removed.
pub open spec fn spec_year_digits(s: Seq<char>) -> Seq<char> {
    let b = spec_year_prefix(s);
    if b.len() > 0 && b[0] == '+' {
        b.skip(1)
    } else {
        b
    }
}

/// The year prefix denotes a number: non-empty digits whose value fits in
/// an `i32`.
pub open spec fn spec_year_valid(s: Seq<char>) -> bool {
    let d = spec_year_digits(s);
    d.len() > 0 && spec_all_digits(d) && spec_digits_val(d) <= i32::MAX as int
}

pub open spec fn spec_year_value(s: Seq<char>) -> int {
    spec_digits_val(spec_year_digits(s))
}

/// The year of a date string, or zero when the prefix is not a number:
/// a record with an unreadable date is kept, not dropped.
pub open spec fn spec_year_or_zero(s: Seq<char>) -> int {
    if spec_year_valid(s) {
        spec_year_value(s)
    } else {
        0
    }
}

/// Only one position can split a string at its first dash.
pub proof fn lemma_year_split_unique(s: Seq<char>, p1: int, p2: int)
    requires
        spec_year_split_at(s, p1),
        spec_year_split_at(s, p2),
    ensures
        p1 == p2,
{
    if p1 < p2 {
        assert(s[p1] != '-');
    }
    if p2 < p1 {
        assert(s[p2] != '-');
    }
}

/// The year of a date string; zero when its prefix is not a number.
pub fn try_get_year(datestring: &str) -> (r: i32)
    ensures
        r as int == spec_year_or_zero(datestring@),
{
    let n = datestring.unicode_len();
    let mut j: usize = 0;
    let mut dash: usize = n;
    let mut found = false;
    while j < n && !found
        invariant
            j <= n,
            n == datestring@.len(),
            forall|i: int| 0 <= i < j ==> datestring@[i] != '-',
            found ==> j < n && datestring@[j as int] == '-' && dash == j,
            !found ==> dash == n,
        decreases 2 * (n - j) + (if found {
            0int
        } else {
            1int
        }),
    {
        if datestring.get_char(j) == '-' {
            dash = j;
            found = true;
        } else {
            j = j + 1;
        }
    }
    proof {
        assert(spec_year_split_at(datestring@, dash as int));
        lemma_year_split_unique(
            datestring@,
            dash as int,
            choose|p: int| spec_year_split_at(datestring@, p),
        );
        assert(spec_year_prefix(datestring@) == datestring@.take(dash as int));
    }
    let st: usize = if dash > 0 && datestring.get_char(0) == '+' {
        1
    } else {
        0
    };
    let ghost digs: Seq<char> = spec_year_digits(datestring@);
    proof {
        assert(digs =~= datestring@.subrange(st as int, dash as int));
    }
    if st == dash {
        return 0;
    }
    let mut acc: u64 = 0;
    let mut k = st;
    while k < dash
        invariant
            st <= k <= dash <= n,
            n == datestring@.len(),
            digs == datestring@.subrange(st as int, dash as int),
            digs == spec_year_digits(datestring@),
            st < dash,
            forall|i: int| st <= i < k ==> spec_is_digit(#[trigger] datestring@[i]),
            acc as int == spec_digits_val(digs.take(k - st)),
            acc <= 0x7fff_ffff,
        decreases dash - k,
    {
        let c = datestring.get_char(k);
        let v = (c as u32) as u64;
        if !(48 <= v && v <= 57) {
            proof {
                assert(digs[k - st] == datestring@[k as int]);
                assert(!spec_all_digits(digs));
            }
            return 0;
        }
        proof {
            assert(digs[k - st] == datestring@[k as int]);
            lemma_digits_val_step(digs, k - st);
        }
        let next = acc * 10 + (v - 48);
        if next > 0x7fff_ffff {
            proof {
                if spec_all_digits(digs) {
                    assert(digs.take((k - st) + 1) == digs.take(k + 1 - st));
                    lemma_digits_val_take_le(digs, k + 1 - st);
                }
            }
            return 0;
        }
        acc = next;
        k = k + 1;
    }
    proof {
        assert(digs.take(dash - st) =~= digs);
        assert forall|i: int| 0 <= i < digs.len() implies spec_is_digit(#[trigger] digs[i]) by {
            assert(digs[i] == datestring@[st + i]);
        }
    }
    acc as i32
}

/// The year written before the first dash of a date string.  The prefix
/// must denote a number: a date no year can be read from is excluded
/// here, and `try_get_year` handles it by answering zero.
pub fn get_year(datestring: &str) -> (r: i32)
    requires
        spec_year_valid(datestring@),
    ensures
        r as int == spec_year_value(datestring@),
{
    try_get_year(datestring)
}

} // verus!
