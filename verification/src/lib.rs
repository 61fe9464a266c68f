//! A verified core for a room-booking service: administrators publish
//! bookable time slots per room and date type, members book them through
//! an availability filter with deadlines and per-day caps, and a waiting
//! list is notified when slots open up. All times are minutes in local
//! wall-clock time; rendering, persistence and mail delivery live outside
//! this crate and receive plain values.

pub mod admin;
pub mod auth;
pub mod language;
pub mod mail;
pub mod model;
pub mod store;
pub mod user;
pub mod util;

use vstd::prelude::*;

verus! {

/// Externally supplied configuration, handed into each call that needs it.
pub struct Config {
    pub email_host: String,
    pub email_port: u16,
    pub email_from_address: String,
    pub web_address: String,
    /// Per-day cap on the slots shown in the overview; 0 means unlimited.
    pub dates_per_day: usize,
    /// Rolling deadline: slots must lie at least this many days ahead; 0 disables it.
    pub days_deadline: u32,
    /// Absolute application deadline per date type, in minutes; absent means open.
    pub application_deadlines: Vec<(model::date_type::DateType, u64)>,
    /// The date types offered on the landing page.
    pub enabled_date_types: Vec<model::date_type::DateType>,
    pub impressum: String,
}

/// The first deadline configured for a date type, if any.
pub open spec fn spec_deadline_of(
    ds: Seq<(model::date_type::DateType, u64)>,
    dt: model::date_type::DateType,
) -> Option<u64>
    decreases ds.len(),
{
    if ds.len() == 0 {
        None
    } else if ds[0].0 == dt {
        Some(ds[0].1)
    } else {
        spec_deadline_of(ds.skip(1), dt)
    }
}

impl Config {
    /// The application deadline configured for a date type, if any.
    #[verifier::loop_isolation(false)]
    pub fn deadline_of(&self, dt: model::date_type::DateType) -> (r: Option<u64>)
        ensures
            r == spec_deadline_of(self.application_deadlines@, dt),
    {
        let ds = &self.application_deadlines;
        let mut i: usize = 0;
        proof {
            assert(ds@.skip(0) =~= ds@);
        }
        while i < ds.len()
            invariant
                i <= ds@.len(),
                spec_deadline_of(ds@, dt) == spec_deadline_of(ds@.skip(i as int), dt),
            decreases ds@.len() - i,
        {
            proof {
                assert(ds@.skip(i as int)[0] == ds@[i as int]);
                assert(ds@.skip(i as int).skip(1) =~= ds@.skip(i + 1));
            }
            if ds[i].0 == dt {
                return Some(ds[i].1);
            }
            i += 1;
        }
        None
    }

    /// Whether a date type is offered on the landing page.
    #[verifier::loop_isolation(false)]
    pub fn is_enabled(&self, dt: model::date_type::DateType) -> (r: bool)
        ensures
            r == self.enabled_date_types@.contains(dt),
    {
        let mut i: usize = 0;
        while i < self.enabled_date_types.len()
            invariant
                i <= self.enabled_date_types@.len(),
                forall|j: int| 0 <= j < i ==> self.enabled_date_types@[j] != dt,
            decreases self.enabled_date_types@.len() - i,
        {
            if self.enabled_date_types[i] == dt {
                assert(self.enabled_date_types@[i as int] == dt);
                return true;
            }
            i += 1;
        }
        false
    }
}

} // verus!
