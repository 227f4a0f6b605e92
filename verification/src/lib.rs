//! Verified core of a seismic-event service: a fixed-point realization of the
//! Rijksdriehoekstelsel (RD) coordinate transform, robust parsing of feed
//! records, a cached pair of derived views that is always replaced as one
//! consistent snapshot, and the temporal range filter served from it.

pub mod rijksdriehoekstelsel;
pub mod timestamp;
pub mod numeric;
pub mod knmidata;
pub mod refresh;
pub mod induced;
