//! The responses that are kept, so that a repeated request is answered as before.

use std::collections::HashMap;

use vstd::prelude::*;

use crate::protocol::{ResponseView, SignResponse};

verus! {

broadcast use vstd::std_specs::hash::group_hash_axioms;

/// A response that is kept, with the fingerprint of the request that it answers.
pub struct CachedResponse {
    pub fingerprint: [u8; 32],
    pub response: SignResponse,
    pub retain_until: i64,
}

/// The meaning of a [`CachedResponse`].
pub struct CachedView {
    pub fingerprint: Seq<u8>,
    pub response: ResponseView,
    pub retain_until: i64,
}

impl View for CachedResponse {
    type V = CachedView;

    open spec fn view(&self) -> CachedView {
        CachedView {
            fingerprint: self.fingerprint@,
            response: self.response@,
            retain_until: self.retain_until,
        }
    }
}

/// The responses that are kept, by request ID.
pub struct ResponseCache {
    entries: HashMap<u128, CachedResponse>,
}

impl View for ResponseCache {
    type V = Map<u128, CachedView>;

    closed spec fn view(&self) -> Map<u128, CachedView> {
        self.entries@.map_values(|cached: CachedResponse| cached@)
    }
}

/// The entries that are still to be kept at a time.
pub open spec fn live(entries: Map<u128, CachedView>, now: i64) -> Map<u128, CachedView> {
    entries.filter_keys(|id: u128| entries[id].retain_until >= now)
}

/// Whether no entry is to be dropped earlier than this one.
pub open spec fn is_oldest(entries: Map<u128, CachedView>, id: u128) -> bool {
    &&& entries.contains_key(id)
    &&& forall|other: u128| #[trigger]
        entries.contains_key(other) ==> entries[id].retain_until <= entries[other].retain_until
}

/// Whether `after` is left of `before` when room is made for one more entry: where the limit is
/// reached, one that is to be dropped earliest is gone.
pub open spec fn room_made(
    before: Map<u128, CachedView>,
    limit: usize,
    after: Map<u128, CachedView>,
) -> bool {
    if before.len() >= limit && before.len() > 0 {
        exists|id: u128| #[trigger] is_oldest(before, id) && after == before.remove(id)
    } else {
        after == before
    }
}

impl ResponseCache {
    /// No responses.
    pub fn new() -> (r: ResponseCache)
        ensures
            r@ == Map::<u128, CachedView>::empty(),
    {
        let r = ResponseCache { entries: HashMap::new() };
        assert(r@ =~= Map::<u128, CachedView>::empty());
        r
    }

    /// The number of responses.
    pub fn len(&self) -> (r: usize)
        ensures
            r == self@.len(),
            self@.dom().finite(),
    {
        assert(self@.dom() =~= self.entries@.dom());
        self.entries.len()
    }

    /// The response that is kept for a request ID.
    pub fn get(&self, id: u128) -> (r: Option<&CachedResponse>)
        ensures
            match r {
                Some(cached) => self@.contains_key(id) && self@[id] == cached@,
                None => !self@.contains_key(id),
            },
    {
        self.entries.get(&id)
    }

    /// Keeps a response for a request ID.
    pub fn insert(&mut self, id: u128, cached: CachedResponse)
        ensures
            final(self)@ == old(self)@.insert(id, cached@),
    {
        self.entries.insert(id, cached);
        assert(self@ =~= old(self)@.insert(id, cached@));
    }

    /// Drops the responses that are not to be kept any longer.
    pub fn retain(&mut self, now: i64)
        ensures
            final(self)@ == live(old(self)@, now),
    {
        let mut expired: Vec<u128> = Vec::new();
        let ghost before = self.entries@;
        for pair in it: self.entries.iter()
            invariant
                before == self.entries@,
                forall|j: int|
                    0 <= j < it.index() && (#[trigger] it.seq()[j]).1.retain_until < now
                        ==> expired@.contains(*it.seq()[j].0),
                forall|j: int|
                    0 <= j < expired@.len() ==> before.contains_key(#[trigger] expired@[j])
                        && before[expired@[j]].retain_until < now,
        {
            broadcast use vstd::seq_lib::group_seq_properties;

            let (id, cached) = pair;
            if cached.retain_until < now {
                expired.push(*id);
            }
        }
        assert forall|id: u128| #[trigger]
            before.contains_key(id) && before[id].retain_until < now implies expired@.contains(
            id,
        ) by {
        }
        let mut i: usize = 0;
        while i < expired.len()
            invariant
                i <= expired@.len(),
                forall|id: u128| #[trigger]
                    self.entries@.contains_key(id) <==> before.contains_key(id)
                        && !expired@.take(i as int).contains(id),
                forall|id: u128| #[trigger]
                    self.entries@.contains_key(id) ==> self.entries@[id] == before[id],
            decreases expired@.len() - i,
        {
            broadcast use vstd::seq_lib::group_seq_properties;

            let id: u128 = expired[i];
            self.entries.remove(&id);
            assert(expired@.take(i + 1) =~= expired@.take(i as int).push(id));
            i = i + 1;
        }
        assert(expired@.take(i as int) =~= expired@);
        assert(self@ =~= live(old(self)@, now));
    }

    /// Makes room for one more response.
    pub fn make_room(&mut self, limit: usize)
        ensures
            room_made(old(self)@, limit, final(self)@),
    {
        if self.len() < limit {
            return;
        }
        let mut oldest: Option<(u128, i64)> = None;
        let ghost before = self.entries@;
        for pair in it: self.entries.iter()
            invariant
                before == self.entries@,
                match oldest {
                    None => it.index() == 0,
                    Some((id, retain_until)) => {
                        &&& before.contains_key(id)
                        &&& before[id].retain_until == retain_until
                        &&& forall|j: int|
                            0 <= j < it.index() ==> retain_until <= (
                            #[trigger] it.seq()[j]).1.retain_until
                    },
                },
        {
            let (id, cached) = pair;
            let older = match oldest {
                None => true,
                Some((_, retain_until)) => cached.retain_until < retain_until,
            };
            if older {
                oldest = Some((*id, cached.retain_until));
            }
        }
        match oldest {
            None => {
                assert(before.dom().len() == 0);
                assert(self@.dom() =~= before.dom());
            },
            Some((id, retain_until)) => {
                assert forall|other: u128| #[trigger] before.contains_key(
                    other,
                ) implies retain_until <= before[other].retain_until by {
                }
                assert(is_oldest(self@, id));
                assert(self@.dom().contains(id));
                self.entries.remove(&id);
                assert(self@ =~= old(self)@.remove(id));
            },
        }
    }
}

} // verus!
