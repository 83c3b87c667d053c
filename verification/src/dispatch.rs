//! The per-group dispatch decision: one tick's sequential step for one
//! polling group — evaluate the snapshot, pass the cooldown gate, and
//! build the batch to hand to the notification gateway.

use crate::message::make_notification;
use crate::message::spec_notification;
use crate::snapshot::Centers;
use crate::snapshot::available_count;
use crate::snapshot::count_available_centers;
use crate::store::Group;
use crate::store::SubStore;
use crate::store::spec_due_tokens;
use vstd::prelude::*;

verus! {

/// What one group's tick hands to the gateway: the recipients that
/// passed the cooldown gate and the message body.
pub struct NotificationBatch {
    pub tokens: Vec<String>,
    pub body: String,
}

impl SubStore {
    /// Decides one group's tick. Returns the batch to send iff the
    /// snapshot holds at least one available center for the group's band
    /// and at least one of the group's rows passes the cooldown gate;
    /// the batch then carries exactly the due tokens, in store order,
    /// and the message built from the available-center count and the
    /// band. Returns nothing otherwise: no gateway call is owed, and no
    /// timestamp may be touched.
    pub fn plan_group_notification(
        &self,
        group: &Group,
        snapshot: &Centers,
        now: u64,
        window: u64,
    ) -> (r: Option<NotificationBatch>)
        ensures
            (match r {
                Some(batch) => available_count(snapshot.centers@, group.age_limit) > 0
                    && batch.tokens@ == spec_due_tokens(
                    self.subs@,
                    group.pincode@,
                    group.age_limit,
                    now,
                    window,
                ) && batch.tokens@.len() > 0 && batch.body@ == spec_notification(
                    available_count(snapshot.centers@, group.age_limit),
                    group.age_limit as nat,
                ),
                None => available_count(snapshot.centers@, group.age_limit) == 0
                    || spec_due_tokens(
                    self.subs@,
                    group.pincode@,
                    group.age_limit,
                    now,
                    window,
                ).len() == 0,
            }),
    {
        let count = count_available_centers(snapshot, group.age_limit);
        if count == 0 {
            return None;
        }
        let tokens = self.due_tokens(group, now, window);
        if tokens.len() == 0 {
            return None;
        }
        let body = make_notification(count, group.age_limit);
        Some(NotificationBatch { tokens, body })
    }
}

} // verus!
