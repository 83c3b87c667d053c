//! The subscription store: rows keyed by the unique triple
//! (pincode, age band, token), with a last-notified timestamp. It offers
//! idempotent registration, the distinct polling groups, the
//! cooldown-filtered recipients of a group, and the bookkeeping that
//! follows a send attempt.

use crate::band::MIN_AGE;
use crate::band::get_age_limit;
use crate::band::spec_age_limit;
use vstd::prelude::*;

verus! {

/// The cooldown window in seconds: the least time that must elapse
/// between two notifications to the same subscription.
pub const COOLDOWN_WINDOW_SECS: u64 = 7200;

/// One subscriber: a location key, an age-band floor, a push token, and
/// the time of the last notification (`None` means never notified).
pub struct Subscription {
    pub pincode: String,
    pub age_limit: u32,
    pub token: String,
    pub last_notified_at: Option<u64>,
}

/// A polling group: one distinct (pincode, age band) pair.
pub struct Group {
    pub pincode: String,
    pub age_limit: u32,
}

/// What a successful registration reports back.
pub struct SubscribeResponse {
    pub pincode: String,
    pub age_limit: u32,
}

/// Why a registration was rejected.
#[derive(Debug)]
pub enum RegisterError {
    /// The raw age is below the minimum the service accepts.
    UnderMinimumAge,
}

/// Two rows share the identifying triple.
pub open spec fn same_triple(a: Subscription, b: Subscription) -> bool {
    a.pincode@ == b.pincode@ && a.age_limit == b.age_limit && a.token@ == b.token@
}

/// Some row carries the given triple.
pub open spec fn has_triple(
    subs: Seq<Subscription>,
    pincode: Seq<char>,
    age_limit: u32,
    token: Seq<char>,
) -> bool {
    exists|i: int|
        0 <= i < subs.len() && subs[i].pincode@ == pincode && subs[i].age_limit == age_limit
            && subs[i].token@ == token
}

/// The row belongs to the polling group with this pincode and band.
pub open spec fn in_group(s: Subscription, pincode: Seq<char>, age_limit: u32) -> bool {
    s.pincode@ == pincode && s.age_limit == age_limit
}

/// No two rows share the identifying triple.
pub open spec fn unique_triples(subs: Seq<Subscription>) -> bool {
    forall|i: int, j: int| 0 <= i < j < subs.len() ==> !same_triple(subs[i], subs[j])
}

/// The cooldown gate: a row is due iff it was never notified, or the
/// cooldown window has fully elapsed since its last notification.
pub open spec fn is_due(last_notified_at: Option<u64>, now: u64, window: u64) -> bool {
    match last_notified_at {
        Option::None => true,
        Option::Some(t) => t + window <= now,
    }
}

/// The tokens a send to the group would address: the tokens of the
/// group's rows that pass the cooldown gate, in store order.
pub open spec fn spec_due_tokens(
    subs: Seq<Subscription>,
    pincode: Seq<char>,
    age_limit: u32,
    now: u64,
    window: u64,
) -> Seq<String>
    decreases subs.len(),
{
    if subs.len() == 0 {
        Seq::empty()
    } else {
        let rest = spec_due_tokens(subs.drop_last(), pincode, age_limit, now, window);
        if in_group(subs.last(), pincode, age_limit) && is_due(
            subs.last().last_notified_at,
            now,
            window,
        ) {
            rest.push(subs.last().token)
        } else {
            rest
        }
    }
}

/// How registering a triple changes the rows: nothing if the triple is
/// already present, else one new never-notified row at the end.
pub open spec fn spec_register_effect(
    before: Seq<Subscription>,
    after: Seq<Subscription>,
    pincode: Seq<char>,
    age_limit: u32,
    token: Seq<char>,
) -> bool {
    if has_triple(before, pincode, age_limit, token) {
        after == before
    } else {
        after.len() == before.len() + 1 && after.subrange(0, before.len() as int) == before
            && after.last().pincode@ == pincode && after.last().age_limit == age_limit
            && after.last().token@ == token && after.last().last_notified_at is None
    }
}

/// What a row looks like after a send attempt that addressed the given
/// tokens of the given group: its timestamp becomes the attempt time if
/// the row was in the batch, else the row is untouched.
pub open spec fn spec_after_mark(
    s: Subscription,
    pincode: Seq<char>,
    age_limit: u32,
    tokens: Seq<String>,
    now: u64,
) -> Subscription {
    if in_group(s, pincode, age_limit) && token_in(tokens, s.token@) {
        Subscription {
            pincode: s.pincode,
            age_limit: s.age_limit,
            token: s.token,
            last_notified_at: Some(now),
        }
    } else {
        s
    }
}

/// The batch holds a token with this view.
pub open spec fn token_in(tokens: Seq<String>, token: Seq<char>) -> bool {
    exists|j: int| 0 <= j < tokens.len() && tokens[j]@ == token
}

/// Some row belongs to the group.
pub open spec fn group_has_member(subs: Seq<Subscription>, g: Group) -> bool {
    exists|k: int| 0 <= k < subs.len() && in_group(#[trigger] subs[k], g.pincode@, g.age_limit)
}

/// The group list holds the row's (pincode, band) pair.
pub open spec fn sub_covered(groups: Seq<Group>, s: Subscription) -> bool {
    exists|a: int|
        0 <= a < groups.len() && in_group(s, (#[trigger] groups[a]).pincode@, groups[a].age_limit)
}

/// The subscription store.
pub struct SubStore {
    pub subs: Vec<Subscription>,
}

impl SubStore {
    /// The store's invariant: the identifying triple is unique.
    pub open spec fn wf(self) -> bool {
        unique_triples(self.subs@)
    }

    /// An empty store.
    pub fn new() -> (s: SubStore)
        ensures
            s.subs@.len() == 0,
            s.wf(),
    {
        SubStore { subs: Vec::new() }
    }

    /// Whether a row with this exact triple exists.
    pub fn contains_triple(&self, pincode: &String, age_limit: u32, token: &String) -> (r: bool)
        ensures
            r == has_triple(self.subs@, pincode@, age_limit, token@),
    {
        let mut i: usize = 0;
        let mut found = false;
        while i < self.subs.len()
            invariant
                i <= self.subs@.len(),
                found == has_triple(self.subs@.subrange(0, i as int), pincode@, age_limit, token@),
            decreases self.subs@.len() - i,
        {
            let s = &self.subs[i];
            if s.pincode == *pincode && s.age_limit == age_limit && s.token == *token {
                found = true;
            }
            proof {
                let pre = self.subs@.subrange(0, i as int);
                let post = self.subs@.subrange(0, i as int + 1);
                assert(pre =~= post.drop_last());
                assert(forall|k: int| 0 <= k < pre.len() ==> post[k] == pre[k]);
                assert(post[i as int] == self.subs@[i as int]);
            }
            i = i + 1;
        }
        proof {
            assert(self.subs@.subrange(0, self.subs@.len() as int) =~= self.subs@);
        }
        found
    }

    /// Registers a triple: ages under the minimum are rejected; an
    /// existing triple is acknowledged without a new row (idempotence);
    /// a new triple gets one never-notified row.
    pub fn register(&mut self, pincode: String, age: u32, token: String) -> (r: Result<
        SubscribeResponse,
        RegisterError,
    >)
        requires
            old(self).wf(),
        ensures
            final(self).wf(),
            age < MIN_AGE ==> (r matches Err(RegisterError::UnderMinimumAge) && final(self).subs@
                == old(self).subs@),
            age >= MIN_AGE ==> (match r {
                Ok(resp) => resp.pincode@ == pincode@ && resp.age_limit == spec_age_limit(age)
                    && spec_register_effect(
                    old(self).subs@,
                    final(self).subs@,
                    pincode@,
                    spec_age_limit(age),
                    token@,
                ),
                Err(_) => false,
            }),
    {
        if age < MIN_AGE {
            return Err(RegisterError::UnderMinimumAge);
        }
        let age_limit = get_age_limit(age);
        if self.contains_triple(&pincode, age_limit, &token) {
            Ok(SubscribeResponse { pincode, age_limit })
        } else {
            let response_pincode = pincode.clone();
            let ghost before = self.subs@;
            self.subs.push(
                Subscription { pincode, age_limit, token, last_notified_at: None },
            );
            proof {
                assert(self.subs@.subrange(0, before.len() as int) =~= before);
                assert forall|i: int, j: int| 0 <= i < j < self.subs@.len() implies !same_triple(
                    self.subs@[i],
                    self.subs@[j],
                ) by {
                    if j < before.len() {
                        assert(!same_triple(before[i], before[j]));
                    } else {
                        assert(!has_triple(before, self.subs@[j].pincode@, self.subs@[j].age_limit, self.subs@[j].token@));
                    }
                }
            }
            Ok(SubscribeResponse { pincode: response_pincode, age_limit })
        }
    }

    /// The distinct polling groups: every row's (pincode, band) pair
    /// appears exactly once, and nothing else does.
    pub fn distinct_groups(&self) -> (r: Vec<Group>)
        ensures
            forall|a: int, b: int|
                0 <= a < b < r@.len() ==> !(r@[a].pincode@ == r@[b].pincode@ && r@[a].age_limit
                    == r@[b].age_limit),
            forall|a: int| 0 <= a < r@.len() ==> group_has_member(self.subs@, #[trigger] r@[a]),
            forall|k: int|
                0 <= k < self.subs@.len() ==> sub_covered(r@, #[trigger] self.subs@[k]),
    {
        let mut groups: Vec<Group> = Vec::new();
        let mut i: usize = 0;
        while i < self.subs.len()
            invariant
                i <= self.subs@.len(),
                forall|a: int, b: int|
                    0 <= a < b < groups@.len() ==> !(groups@[a].pincode@ == groups@[b].pincode@
                        && groups@[a].age_limit == groups@[b].age_limit),
                forall|a: int|
                    0 <= a < groups@.len() ==> group_has_member(self.subs@, #[trigger] groups@[a]),
                forall|k: int| 0 <= k < i ==> sub_covered(groups@, #[trigger] self.subs@[k]),
            decreases self.subs@.len() - i,
        {
            let s = &self.subs[i];
            if !contains_group(&groups, &s.pincode, s.age_limit) {
                let ghost old_groups = groups@;
                groups.push(Group { pincode: s.pincode.clone(), age_limit: s.age_limit });
                proof {
                    assert(groups@.last().pincode@ == self.subs@[i as int].pincode@);
                    assert(forall|a: int|
                        0 <= a < old_groups.len() ==> groups@[a] == old_groups[a]);
                }
            }
            i = i + 1;
        }
        groups
    }

    /// The cooldown-filtered recipients of a group at a tick: the tokens
    /// of the group's rows whose last notification lies at least the
    /// window in the past (or that were never notified), in store order.
    pub fn due_tokens(&self, group: &Group, now: u64, window: u64) -> (r: Vec<String>)
        ensures
            r@ == spec_due_tokens(self.subs@, group.pincode@, group.age_limit, now, window),
    {
        let mut tokens: Vec<String> = Vec::new();
        let mut i: usize = 0;
        while i < self.subs.len()
            invariant
                i <= self.subs@.len(),
                tokens@ == spec_due_tokens(
                    self.subs@.subrange(0, i as int),
                    group.pincode@,
                    group.age_limit,
                    now,
                    window,
                ),
            decreases self.subs@.len() - i,
        {
            proof {
                let pre = self.subs@.subrange(0, i as int);
                let post = self.subs@.subrange(0, i as int + 1);
                assert(pre =~= post.drop_last());
                assert(post.last() == self.subs@[i as int]);
            }
            let s = &self.subs[i];
            if s.pincode == group.pincode && s.age_limit == group.age_limit && due_now(
                s.last_notified_at,
                now,
                window,
            ) {
                tokens.push(s.token.clone());
            }
            i = i + 1;
        }
        proof {
            assert(self.subs@.subrange(0, self.subs@.len() as int) =~= self.subs@);
        }
        tokens
    }

    /// Records a send attempt: every row of the group whose token stood
    /// in the batch has its last-notified time set to the attempt time;
    /// every other row is untouched. Called after the gateway call was
    /// attempted, whatever the gateway reported.
    pub fn mark_notified(&mut self, group: &Group, tokens: &Vec<String>, now: u64)
        ensures
            final(self).subs@.len() == old(self).subs@.len(),
            forall|i: int|
                0 <= i < old(self).subs@.len() ==> final(self).subs@[i] == spec_after_mark(
                    old(self).subs@[i],
                    group.pincode@,
                    group.age_limit,
                    tokens@,
                    now,
                ),
    {
        let mut i: usize = 0;
        while i < self.subs.len()
            invariant
                self.subs@.len() == old(self).subs@.len(),
                i <= self.subs@.len(),
                forall|k: int|
                    0 <= k < i ==> self.subs@[k] == spec_after_mark(
                        old(self).subs@[k],
                        group.pincode@,
                        group.age_limit,
                        tokens@,
                        now,
                    ),
                forall|k: int| i <= k < self.subs@.len() ==> self.subs@[k] == old(self).subs@[k],
            decreases self.subs@.len() - i,
        {
            let s = &self.subs[i];
            if s.pincode == group.pincode && s.age_limit == group.age_limit && contains_token(
                tokens,
                &s.token,
            ) {
                self.subs[i].last_notified_at = Some(now);
            }
            i = i + 1;
        }
    }
}

/// Law: registration is idempotent. If one registration takes the rows
/// from `s0` to `s1` and a second registration of the same triple takes
/// them from `s1` to `s2`, the second changes nothing: `s2 == s1`, so
/// registering twice leaves the same row count as registering once.
pub proof fn lemma_register_idempotent(
    s0: Seq<Subscription>,
    s1: Seq<Subscription>,
    s2: Seq<Subscription>,
    pincode: Seq<char>,
    age_limit: u32,
    token: Seq<char>,
)
    requires
        spec_register_effect(s0, s1, pincode, age_limit, token),
        spec_register_effect(s1, s2, pincode, age_limit, token),
    ensures
        s2 == s1,
        s1.len() <= s0.len() + 1,
{
    if !has_triple(s0, pincode, age_limit, token) {
        assert(s1[s1.len() - 1].pincode@ == pincode && s1[s1.len() - 1].age_limit == age_limit
            && s1[s1.len() - 1].token@ == token);
        assert(has_triple(s1, pincode, age_limit, token));
    }
}

/// Some row of the group is due and carries this token.
pub open spec fn due_token_witness(
    subs: Seq<Subscription>,
    pincode: Seq<char>,
    age_limit: u32,
    now: u64,
    window: u64,
    t: String,
) -> bool {
    exists|k: int|
        0 <= k < subs.len() && in_group(#[trigger] subs[k], pincode, age_limit) && is_due(
            subs[k].last_notified_at,
            now,
            window,
        ) && subs[k].token == t
}

/// Every token of the due list is the token of some row of the group
/// that passed the cooldown gate.
pub proof fn lemma_due_tokens_sound(
    subs: Seq<Subscription>,
    pincode: Seq<char>,
    age_limit: u32,
    now: u64,
    window: u64,
)
    ensures
        forall|j: int|
            0 <= j < spec_due_tokens(subs, pincode, age_limit, now, window).len()
                ==> due_token_witness(
                subs,
                pincode,
                age_limit,
                now,
                window,
                #[trigger] spec_due_tokens(subs, pincode, age_limit, now, window)[j],
            ),
    decreases subs.len(),
{
    if subs.len() > 0 {
        lemma_due_tokens_sound(subs.drop_last(), pincode, age_limit, now, window);
        let rest = spec_due_tokens(subs.drop_last(), pincode, age_limit, now, window);
        let list = spec_due_tokens(subs, pincode, age_limit, now, window);
        assert forall|j: int| 0 <= j < list.len() implies due_token_witness(
            subs,
            pincode,
            age_limit,
            now,
            window,
            list[j],
        ) by {
            if j < rest.len() {
                assert(due_token_witness(
                    subs.drop_last(),
                    pincode,
                    age_limit,
                    now,
                    window,
                    rest[j],
                ));
                let k = choose|k: int|
                    0 <= k < subs.drop_last().len() && in_group(
                        #[trigger] subs.drop_last()[k],
                        pincode,
                        age_limit,
                    ) && is_due(subs.drop_last()[k].last_notified_at, now, window)
                        && subs.drop_last()[k].token == rest[j];
                assert(subs[k] == subs.drop_last()[k]);
                assert(list[j] == rest[j]);
            } else {
                assert(subs[subs.len() - 1] == subs.last());
                assert(list[j] == subs.last().token);
            }
        }
    }
}

/// Every row of the group that passes the cooldown gate has its token
/// in the due list.
pub proof fn lemma_due_tokens_complete(
    subs: Seq<Subscription>,
    pincode: Seq<char>,
    age_limit: u32,
    now: u64,
    window: u64,
    i: int,
)
    requires
        0 <= i < subs.len(),
        in_group(subs[i], pincode, age_limit),
        is_due(subs[i].last_notified_at, now, window),
    ensures
        token_in(spec_due_tokens(subs, pincode, age_limit, now, window), subs[i].token@),
    decreases subs.len(),
{
    let list = spec_due_tokens(subs, pincode, age_limit, now, window);
    if i == subs.len() - 1 {
        assert(subs[i] == subs.last());
        assert(list[list.len() - 1]@ == subs[i].token@);
    } else {
        assert(subs.drop_last()[i] == subs[i]);
        lemma_due_tokens_complete(subs.drop_last(), pincode, age_limit, now, window, i);
        let rest = spec_due_tokens(subs.drop_last(), pincode, age_limit, now, window);
        let j = choose|j: int| 0 <= j < rest.len() && rest[j]@ == subs[i].token@;
        assert(list[j]@ == subs[i].token@);
    }
}

/// Law: the cooldown gate has a sharp boundary. For a row of the group
/// last notified at `t`, a tick before `t + window` (so, at
/// `t + window - 1` in particular) keeps its token out of the send
/// batch, and a tick at `t + window` or later puts it in.
pub proof fn lemma_cooldown_gate(
    subs: Seq<Subscription>,
    pincode: Seq<char>,
    age_limit: u32,
    t: u64,
    now: u64,
    window: u64,
    i: int,
)
    requires
        unique_triples(subs),
        0 <= i < subs.len(),
        in_group(subs[i], pincode, age_limit),
        subs[i].last_notified_at == Some(t),
    ensures
        now < t + window ==> !token_in(
            spec_due_tokens(subs, pincode, age_limit, now, window),
            subs[i].token@,
        ),
        now >= t + window ==> token_in(
            spec_due_tokens(subs, pincode, age_limit, now, window),
            subs[i].token@,
        ),
{
    let list = spec_due_tokens(subs, pincode, age_limit, now, window);
    if now >= t + window {
        lemma_due_tokens_complete(subs, pincode, age_limit, now, window, i);
    } else {
        lemma_due_tokens_sound(subs, pincode, age_limit, now, window);
        if token_in(list, subs[i].token@) {
            let j = choose|j: int| 0 <= j < list.len() && list[j]@ == subs[i].token@;
            assert(due_token_witness(subs, pincode, age_limit, now, window, list[j]));
            let k = choose|k: int|
                0 <= k < subs.len() && in_group(#[trigger] subs[k], pincode, age_limit) && is_due(
                    subs[k].last_notified_at,
                    now,
                    window,
                ) && subs[k].token == list[j];
            assert(subs[k].token@ == subs[i].token@);
            if k < i {
                assert(!same_triple(subs[k], subs[i]));
            } else if i < k {
                assert(!same_triple(subs[i], subs[k]));
            }
            assert(k == i);
            assert(false);
        }
    }
}

/// Law: a send attempt reaches the whole batch's bookkeeping. A row of
/// the group that passed the cooldown gate put its token in the batch,
/// so recording the attempt sets its last-notified time to the attempt
/// time — whatever the gateway reported about the send itself.
pub proof fn lemma_attempt_updates_every_batch_row(
    subs: Seq<Subscription>,
    pincode: Seq<char>,
    age_limit: u32,
    now: u64,
    window: u64,
    i: int,
)
    requires
        0 <= i < subs.len(),
        in_group(subs[i], pincode, age_limit),
        is_due(subs[i].last_notified_at, now, window),
    ensures
        spec_after_mark(
            subs[i],
            pincode,
            age_limit,
            spec_due_tokens(subs, pincode, age_limit, now, window),
            now,
        ).last_notified_at == Some(now),
{
    lemma_due_tokens_complete(subs, pincode, age_limit, now, window, i);
}

/// The cooldown gate on one timestamp.
pub fn due_now(last_notified_at: Option<u64>, now: u64, window: u64) -> (r: bool)
    ensures
        r == is_due(last_notified_at, now, window),
{
    match last_notified_at {
        None => true,
        Some(t) => now >= t && now - t >= window,
    }
}

/// Whether the batch holds a token equal to this one.
pub fn contains_token(tokens: &Vec<String>, token: &String) -> (r: bool)
    ensures
        r == token_in(tokens@, token@),
{
    let mut j: usize = 0;
    let mut found = false;
    while j < tokens.len()
        invariant
            j <= tokens@.len(),
            found == exists|k: int| 0 <= k < j && tokens@[k]@ == token@,
        decreases tokens@.len() - j,
    {
        if tokens[j] == *token {
            found = true;
        }
        j = j + 1;
    }
    found
}

/// Whether the list already holds this (pincode, band) group.
fn contains_group(groups: &Vec<Group>, pincode: &String, age_limit: u32) -> (r: bool)
    ensures
        r == exists|a: int|
            0 <= a < groups@.len() && (#[trigger] groups@[a]).pincode@ == pincode@
                && groups@[a].age_limit == age_limit,
{
    let mut j: usize = 0;
    let mut found = false;
    while j < groups.len()
        invariant
            j <= groups@.len(),
            found == exists|a: int|
                0 <= a < j && (#[trigger] groups@[a]).pincode@ == pincode@ && groups@[a].age_limit
                    == age_limit,
        decreases groups@.len() - j,
    {
        let g = &groups[j];
        if g.pincode == *pincode && g.age_limit == age_limit {
            found = true;
        }
        j = j + 1;
    }
    found
}

} // verus!
