//! What the mail transport is asked to send; delivery itself happens
//! outside this crate.

use vstd::prelude::*;

use crate::model::date_type::DateType;
use crate::store::{Database, WaitingListEntry};

verus! {

/// One notification owed to a waiting-list subscriber after a slot of the
/// date type opened up.
#[derive(Debug)]
pub struct WaitingListNotice {
    pub email: String,
    pub lang: String,
    pub token: u64,
    pub date_type: DateType,
}

/// The notices owed to every current subscriber of the date type, in store
/// order.
pub open spec fn spec_waiting_list_notices(
    entries: Seq<WaitingListEntry>,
    date_type: DateType,
) -> Seq<WaitingListNotice>
    decreases entries.len(),
{
    if entries.len() == 0 {
        Seq::empty()
    } else {
        let rest = spec_waiting_list_notices(entries.drop_last(), date_type);
        let e = entries.last();
        if e.date_type == date_type {
            rest.push(
                WaitingListNotice { email: e.email, lang: e.lang, token: e.token, date_type },
            )
        } else {
            rest
        }
    }
}

/// Computes one notice per waiting-list entry of the date type. The
/// entries themselves are kept: repeat notification on later openings is
/// intended, and entries leave the list only by unsubscribing or booking.
#[verifier::loop_isolation(false)]
pub fn waiting_list_notify(db: &Database, date_type: DateType) -> (r: Vec<WaitingListNotice>)
    ensures
        r@ == spec_waiting_list_notices(db.waiting_list@, date_type),
{
    let mut r: Vec<WaitingListNotice> = Vec::new();
    let mut i: usize = 0;
    proof {
        assert(db.waiting_list@.take(0) =~= Seq::<WaitingListEntry>::empty());
    }
    while i < db.waiting_list.len()
        invariant
            i <= db.waiting_list@.len(),
            r@ == spec_waiting_list_notices(db.waiting_list@.take(i as int), date_type),
        decreases db.waiting_list@.len() - i,
    {
        proof {
            assert(db.waiting_list@.take(i + 1).drop_last() =~= db.waiting_list@.take(i as int));
            assert(db.waiting_list@.take(i + 1).last() == db.waiting_list@[i as int]);
        }
        let e = &db.waiting_list[i];
        if e.date_type == date_type {
            r.push(
                WaitingListNotice {
                    email: e.email.clone(),
                    lang: e.lang.clone(),
                    token: e.token,
                    date_type,
                },
            );
        }
        i += 1;
    }
    proof {
        assert(db.waiting_list@.take(db.waiting_list@.len() as int) =~= db.waiting_list@);
    }
    r
}

} // verus!
