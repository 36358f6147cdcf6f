//! The session directory: an arena of sessions addressed by stable handles,
//! indexed three ways (token, id, name), with a mirrored live count.
//!
//! The id and name indices are pure aliases: they never own a session, they
//! only name the slot that the token index also names.  The directory
//! invariant ties all four together: a session is live exactly when it is
//! reachable through each index and counted.

use vstd::prelude::*;
use vstd::pervasive::VecAdditionalExecFns;

use crate::clock::unix_now;
use crate::codec::clone_bytes;
use crate::packets::spec_user_logout;
use crate::packets::user_logout_packet;
use crate::session::{PlayerData, Session};

verus! {

/// The index entries that survive when handle `h` is vacated: all entries
/// but those naming `h`, in order.
pub open spec fn spec_remove_handle<K>(m: Seq<(K, usize)>, h: usize) -> Seq<(K, usize)>
    decreases m.len(),
{
    if m.len() == 0 {
        Seq::empty()
    } else {
        let rest = spec_remove_handle(m.drop_last(), h);
        if m.last().1 == h {
            rest
        } else {
            rest.push(m.last())
        }
    }
}

/// Every surviving entry avoids `h` and comes from the original; every
/// original entry avoiding `h` survives.
proof fn lemma_remove_handle_entries<K>(m: Seq<(K, usize)>, h: usize)
    ensures
        forall|k: int|
            0 <= k < spec_remove_handle(m, h).len() ==> (#[trigger] spec_remove_handle(m, h)[k]).1
                != h && m.contains(spec_remove_handle(m, h)[k]),
        forall|e: (K, usize)| #[trigger] m.contains(e) && e.1 != h ==> spec_remove_handle(
            m,
            h,
        ).contains(e),
    decreases m.len(),
{
    if m.len() > 0 {
        let prefix = m.drop_last();
        lemma_remove_handle_entries(prefix, h);
        let rest = spec_remove_handle(prefix, h);
        let r = spec_remove_handle(m, h);
        assert forall|k: int| 0 <= k < r.len() implies (#[trigger] r[k]).1 != h && m.contains(
            r[k],
        ) by {
            if k < rest.len() {
                assert(rest[k].1 != h && prefix.contains(rest[k]));
                let i = choose|i: int| 0 <= i < prefix.len() && prefix[i] == rest[k];
                assert(m[i] == rest[k]);
            } else {
                assert(r[k] == m.last());
                assert(m[m.len() - 1] == m.last());
            }
        }
        assert forall|e: (K, usize)| #[trigger] m.contains(e) && e.1 != h implies r.contains(
            e,
        ) by {
            let i = choose|i: int| 0 <= i < m.len() && m[i] == e;
            if i < m.len() - 1 {
                assert(prefix[i] == e);
                assert(prefix.contains(e));
                assert(rest.contains(e));
                let j = choose|j: int| 0 <= j < rest.len() && rest[j] == e;
                assert(r[j] == e);
            } else {
                assert(e == m.last());
                assert(r[r.len() - 1] == e);
            }
        }
    }
}

/// Key uniqueness survives vacating a handle in a string-keyed index.
proof fn lemma_remove_handle_unique_str(m: Seq<(String, usize)>, h: usize)
    requires
        forall|k1: int, k2: int| 0 <= k1 < k2 < m.len() ==> (#[trigger] m[k1]).0@ != (
        #[trigger] m[k2]).0@,
    ensures
        forall|k1: int, k2: int|
            0 <= k1 < k2 < spec_remove_handle(m, h).len() ==> (#[trigger] spec_remove_handle(
                m,
                h,
            )[k1]).0@ != (#[trigger] spec_remove_handle(m, h)[k2]).0@,
    decreases m.len(),
{
    if m.len() > 0 {
        let prefix = m.drop_last();
        assert(forall|k: int| 0 <= k < prefix.len() ==> prefix[k] == m[k]);
        lemma_remove_handle_unique_str(prefix, h);
        lemma_remove_handle_entries(prefix, h);
        let rest = spec_remove_handle(prefix, h);
        let r = spec_remove_handle(m, h);
        if m.last().1 != h {
            assert forall|k1: int, k2: int| 0 <= k1 < k2 < r.len() implies (#[trigger] r[k1]).0@
                != (#[trigger] r[k2]).0@ by {
                if k2 == r.len() - 1 {
                    assert(r[k2] == m.last());
                    assert(prefix.contains(rest[k1]));
                    let i = choose|i: int| 0 <= i < prefix.len() && prefix[i] == rest[k1];
                    assert(m[i] == rest[k1]);
                    assert(m[i].0@ != m[m.len() - 1].0@);
                }
            }
        }
    }
}

/// Key uniqueness survives vacating a handle in an id-keyed index.
proof fn lemma_remove_handle_unique_id(m: Seq<(i32, usize)>, h: usize)
    requires
        forall|k1: int, k2: int| 0 <= k1 < k2 < m.len() ==> (#[trigger] m[k1]).0 != (
        #[trigger] m[k2]).0,
    ensures
        forall|k1: int, k2: int|
            0 <= k1 < k2 < spec_remove_handle(m, h).len() ==> (#[trigger] spec_remove_handle(
                m,
                h,
            )[k1]).0 != (#[trigger] spec_remove_handle(m, h)[k2]).0,
    decreases m.len(),
{
    if m.len() > 0 {
        let prefix = m.drop_last();
        assert(forall|k: int| 0 <= k < prefix.len() ==> prefix[k] == m[k]);
        lemma_remove_handle_unique_id(prefix, h);
        lemma_remove_handle_entries(prefix, h);
        let rest = spec_remove_handle(prefix, h);
        let r = spec_remove_handle(m, h);
        if m.last().1 != h {
            assert forall|k1: int, k2: int| 0 <= k1 < k2 < r.len() implies (#[trigger] r[k1]).0
                != (#[trigger] r[k2]).0 by {
                if k2 == r.len() - 1 {
                    assert(r[k2] == m.last());
                    assert(prefix.contains(rest[k1]));
                    let i = choose|i: int| 0 <= i < prefix.len() && prefix[i] == rest[k1];
                    assert(m[i] == rest[k1]);
                    assert(m[i].0 != m[m.len() - 1].0);
                }
            }
        }
    }
}

/// An index with no entry for `h` is untouched by vacating `h`.
proof fn lemma_remove_handle_noop<K>(m: Seq<(K, usize)>, h: usize)
    requires
        forall|k: int| 0 <= k < m.len() ==> (#[trigger] m[k]).1 != h,
    ensures
        spec_remove_handle(m, h) == m,
    decreases m.len(),
{
    if m.len() > 0 {
        let prefix = m.drop_last();
        assert(forall|k: int| 0 <= k < prefix.len() ==> prefix[k] == m[k]);
        lemma_remove_handle_noop(prefix, h);
        assert(spec_remove_handle(m, h) =~= m);
    }
}

/// Vacating a handle named by exactly one entry shortens the index by one.
proof fn lemma_remove_handle_len_one<K>(m: Seq<(K, usize)>, h: usize, kt: int)
    requires
        0 <= kt < m.len(),
        m[kt].1 == h,
        forall|k: int| 0 <= k < m.len() && k != kt ==> (#[trigger] m[k]).1 != h,
    ensures
        spec_remove_handle(m, h).len() == m.len() - 1,
    decreases m.len(),
{
    let prefix = m.drop_last();
    assert(forall|k: int| 0 <= k < prefix.len() ==> prefix[k] == m[k]);
    if kt == m.len() - 1 {
        lemma_remove_handle_noop(prefix, h);
    } else {
        lemma_remove_handle_len_one(prefix, h, kt);
    }
}

/// Rebuilds a string-keyed index without the entries naming `h`.
fn remove_handle_entries_str(map: &mut Vec<(String, usize)>, h: usize)
    ensures
        final(map)@ == spec_remove_handle(old(map)@, h),
{
    let n = map.len();
    let mut out: Vec<(String, usize)> = Vec::new();
    let mut i: usize = 0;
    while i < n
        invariant
            n == map@.len(),
            0 <= i <= n,
            map@ == old(map)@,
            out@ == spec_remove_handle(map@.take(i as int), h),
        decreases n - i,
    {
        proof {
            assert(map@.take(i as int + 1).drop_last() =~= map@.take(i as int));
            assert(map@.take(i as int + 1).last() == map@[i as int]);
        }
        let eh = map[i].1;
        if eh != h {
            let key = map[i].0.clone();
            out.push((key, eh));
            proof {
                assert((key, eh) == map@[i as int]);
            }
        }
        i = i + 1;
    }
    proof {
        assert(map@.take(n as int) =~= map@);
    }
    *map = out;
}

/// Rebuilds an id-keyed index without the entries naming `h`.
fn remove_handle_entries_id(map: &mut Vec<(i32, usize)>, h: usize)
    ensures
        final(map)@ == spec_remove_handle(old(map)@, h),
{
    let n = map.len();
    let mut out: Vec<(i32, usize)> = Vec::new();
    let mut i: usize = 0;
    while i < n
        invariant
            n == map@.len(),
            0 <= i <= n,
            map@ == old(map)@,
            out@ == spec_remove_handle(map@.take(i as int), h),
        decreases n - i,
    {
        proof {
            assert(map@.take(i as int + 1).drop_last() =~= map@.take(i as int));
            assert(map@.take(i as int + 1).last() == map@[i as int]);
        }
        let entry = map[i];
        if entry.1 != h {
            out.push(entry);
        }
        i = i + 1;
    }
    proof {
        assert(map@.take(n as int) =~= map@);
    }
    *map = out;
}

/// The triple-indexed registry of connected sessions.
pub struct PlayerSessions {
    /// Arena of sessions; a handle is an index here, and a logged-out
    /// session leaves a tombstone behind, so handles stay stable.
    pub slots: Vec<Option<Session>>,
    /// Token index: opaque credential to handle.
    pub token_map: Vec<(String, usize)>,
    /// Id index: player id to handle.
    pub id_map: Vec<(i32, usize)>,
    /// Name index: primary and alternate names to handle.
    pub name_map: Vec<(String, usize)>,
    /// Mirror of the number of live sessions.
    pub player_count: usize,
}

impl PlayerSessions {
    /// Handle `h` refers to a live session.
    pub open spec fn live(self, h: int) -> bool {
        0 <= h < self.slots@.len() && self.slots@[h] is Some
    }

    /// The session behind handle `h`.
    pub open spec fn at(self, h: int) -> Session {
        self.slots@[h]->Some_0
    }

    pub open spec fn token_entry_ok(self, k: int) -> bool {
        &&& self.live(self.token_map@[k].1 as int)
        &&& self.at(self.token_map@[k].1 as int).token@ == self.token_map@[k].0@
    }

    pub open spec fn id_entry_ok(self, k: int) -> bool {
        &&& self.live(self.id_map@[k].1 as int)
        &&& self.at(self.id_map@[k].1 as int).id == self.id_map@[k].0
    }

    pub open spec fn name_entry_ok(self, k: int) -> bool {
        &&& self.live(self.name_map@[k].1 as int)
        &&& (self.at(self.name_map@[k].1 as int).name@ == self.name_map@[k].0@ || (self.at(
            self.name_map@[k].1 as int,
        ).u_name matches Some(u)
            && u@ == self.name_map@[k].0@))
    }

    /// The token index holds an entry mapping `t` to `h`.
    pub open spec fn token_map_has(self, t: Seq<char>, h: int) -> bool {
        exists|k: int|
            0 <= k < self.token_map@.len() && (#[trigger] self.token_map@[k]).0@ == t
                && self.token_map@[k].1 == h
    }

    /// The id index holds an entry mapping `i` to `h`.
    pub open spec fn id_map_has(self, i: i32, h: int) -> bool {
        exists|k: int|
            0 <= k < self.id_map@.len() && (#[trigger] self.id_map@[k]).0 == i
                && self.id_map@[k].1 == h
    }

    /// The name index holds an entry mapping `n` to `h`.
    pub open spec fn name_map_has(self, n: Seq<char>, h: int) -> bool {
        exists|k: int|
            0 <= k < self.name_map@.len() && (#[trigger] self.name_map@[k]).0@ == n
                && self.name_map@[k].1 == h
    }

    /// The directory invariant: every index entry names a live session that
    /// carries its key; keys are unique within each index; every live
    /// session is reachable through all of its keys; and the counter
    /// mirrors the number of live sessions.
    pub open spec fn wf(self) -> bool {
        &&& forall|k: int| 0 <= k < self.token_map@.len() ==> #[trigger] self.token_entry_ok(k)
        &&& forall|k: int| 0 <= k < self.id_map@.len() ==> #[trigger] self.id_entry_ok(k)
        &&& forall|k: int| 0 <= k < self.name_map@.len() ==> #[trigger] self.name_entry_ok(k)
        &&& forall|k1: int, k2: int|
            0 <= k1 < k2 < self.token_map@.len() ==> (#[trigger] self.token_map@[k1]).0@ != (
            #[trigger] self.token_map@[k2]).0@
        &&& forall|k1: int, k2: int|
            0 <= k1 < k2 < self.id_map@.len() ==> (#[trigger] self.id_map@[k1]).0 != (
            #[trigger] self.id_map@[k2]).0
        &&& forall|k1: int, k2: int|
            0 <= k1 < k2 < self.name_map@.len() ==> (#[trigger] self.name_map@[k1]).0@ != (
            #[trigger] self.name_map@[k2]).0@
        &&& forall|h: int|
            #[trigger] self.live(h) ==> {
                &&& self.token_map_has(self.at(h).token@, h)
                &&& self.id_map_has(self.at(h).id, h)
                &&& self.name_map_has(self.at(h).name@, h)
                &&& (self.at(h).u_name matches Some(u) ==> self.name_map_has(u@, h))
                &&& self.at(h).wf()
            }
        &&& self.player_count == self.token_map@.len()
    }

    /// A session holding token `t` is connected.
    pub open spec fn has_token(self, t: Seq<char>) -> bool {
        exists|k: int| 0 <= k < self.token_map@.len() && (#[trigger] self.token_map@[k]).0@ == t
    }

    /// A session with id `i` is connected.
    pub open spec fn has_id(self, i: i32) -> bool {
        exists|k: int| 0 <= k < self.id_map@.len() && (#[trigger] self.id_map@[k]).0 == i
    }

    /// A session is connected under name `n` (primary or alternate).
    pub open spec fn has_name(self, n: Seq<char>) -> bool {
        exists|k: int| 0 <= k < self.name_map@.len() && (#[trigger] self.name_map@[k]).0@ == n
    }

    /// The handle the token index assigns to `t`.
    pub open spec fn handle_of_token(self, t: Seq<char>) -> int {
        let k = choose|k: int|
            0 <= k < self.token_map@.len() && (#[trigger] self.token_map@[k]).0@ == t;
        self.token_map@[k].1 as int
    }

    /// The handle the id index assigns to `i`.
    pub open spec fn handle_of_id(self, i: i32) -> int {
        let k = choose|k: int| 0 <= k < self.id_map@.len() && (#[trigger] self.id_map@[k]).0 == i;
        self.id_map@[k].1 as int
    }

    /// The handle the name index assigns to `n`.
    pub open spec fn handle_of_name(self, n: Seq<char>) -> int {
        let k = choose|k: int|
            0 <= k < self.name_map@.len() && (#[trigger] self.name_map@[k]).0@ == n;
        self.name_map@[k].1 as int
    }

    /// The session connected under token `t`.
    pub open spec fn session_of_token(self, t: Seq<char>) -> Session {
        self.at(self.handle_of_token(t))
    }

    /// The session connected under id `i`.
    pub open spec fn session_of_id(self, i: i32) -> Session {
        self.at(self.handle_of_id(i))
    }

    /// Number of live sessions.
    pub open spec fn live_count(self) -> int {
        self.token_map@.len() as int
    }

    /// Two token entries with one key are one entry.
    pub proof fn lemma_token_entry_unique(self, k1: int, k2: int)
        requires
            self.wf(),
            0 <= k1 < self.token_map@.len(),
            0 <= k2 < self.token_map@.len(),
            self.token_map@[k1].0@ == self.token_map@[k2].0@,
        ensures
            k1 == k2,
    {
    }

    /// A live session's token leads back to its own handle.
    pub proof fn lemma_token_functional(self, h: int)
        requires
            self.wf(),
            self.live(h),
        ensures
            self.has_token(self.at(h).token@),
            self.handle_of_token(self.at(h).token@) == h,
            self.session_of_token(self.at(h).token@) == self.at(h),
    {
        let t = self.at(h).token@;
        assert(self.token_map_has(t, h));
        let k1 = choose|k: int|
            0 <= k < self.token_map@.len() && (#[trigger] self.token_map@[k]).0@ == t
                && self.token_map@[k].1 == h;
        assert(self.has_token(t));
        let k2 = choose|k: int|
            0 <= k < self.token_map@.len() && (#[trigger] self.token_map@[k]).0@ == t;
        self.lemma_token_entry_unique(k1, k2);
    }

    /// A live session's id leads back to its own handle.
    pub proof fn lemma_id_functional(self, h: int)
        requires
            self.wf(),
            self.live(h),
        ensures
            self.has_id(self.at(h).id),
            self.handle_of_id(self.at(h).id) == h,
            self.session_of_id(self.at(h).id) == self.at(h),
    {
        let i = self.at(h).id;
        assert(self.id_map_has(i, h));
        let k1 = choose|k: int|
            0 <= k < self.id_map@.len() && (#[trigger] self.id_map@[k]).0 == i
                && self.id_map@[k].1 == h;
        let k2 = choose|k: int| 0 <= k < self.id_map@.len() && (#[trigger] self.id_map@[k]).0 == i;
        if k1 != k2 {
            assert(self.id_map@[k1].0 != self.id_map@[k2].0);
        }
    }

    /// The handle an index key leads to is live and carries the key.
    pub proof fn lemma_token_lookup_live(self, t: Seq<char>)
        requires
            self.wf(),
            self.has_token(t),
        ensures
            self.live(self.handle_of_token(t)),
            self.session_of_token(t).token@ == t,
    {
        let k = choose|k: int|
            0 <= k < self.token_map@.len() && (#[trigger] self.token_map@[k]).0@ == t;
        assert(self.token_entry_ok(k));
    }

    /// The handle an id key leads to is live and carries the id.
    pub proof fn lemma_id_lookup_live(self, i: i32)
        requires
            self.wf(),
            self.has_id(i),
        ensures
            self.live(self.handle_of_id(i)),
            self.session_of_id(i).id == i,
    {
        let k = choose|k: int| 0 <= k < self.id_map@.len() && (#[trigger] self.id_map@[k]).0 == i;
        assert(self.id_entry_ok(k));
    }

    /// Creates an empty directory with room for `capacity` sessions.
    pub fn new(capacity: usize) -> (r: PlayerSessions)
        ensures
            r.wf(),
            r.live_count() == 0,
            r.slots@.len() == 0,
            forall|t: Seq<char>| !r.has_token(t),
            forall|i: i32| !r.has_id(i),
            forall|n: Seq<char>| !r.has_name(n),
    {
        PlayerSessions {
            slots: Vec::with_capacity(capacity),
            token_map: Vec::with_capacity(capacity),
            id_map: Vec::with_capacity(capacity),
            name_map: Vec::with_capacity(capacity),
            player_count: 0,
        }
    }

    /// Index of the token entry holding `token`, if any.
    fn find_token_entry(&self, token: &String) -> (r: Option<usize>)
        requires
            self.wf(),
        ensures
            match r {
                Some(k) => {
                    &&& k < self.token_map@.len()
                    &&& self.token_map@[k as int].0@ == token@
                    &&& self.has_token(token@)
                    &&& self.token_map@[k as int].1 == self.handle_of_token(token@)
                },
                None => !self.has_token(token@),
            },
    {
        let n = self.token_map.len();
        let mut k: usize = 0;
        while k < n
            invariant
                n == self.token_map@.len(),
                0 <= k <= n,
                self.wf(),
                forall|m: int| 0 <= m < k ==> (#[trigger] self.token_map@[m]).0@ != token@,
            decreases n - k,
        {
            let entry = &self.token_map[k];
            if entry.0 == *token {
                proof {
                    let k2 = choose|m: int|
                        0 <= m < self.token_map@.len() && (#[trigger] self.token_map@[m]).0@
                            == token@;
                    self.lemma_token_entry_unique(k as int, k2);
                }
                return Some(k);
            }
            k = k + 1;
        }
        None
    }

    /// Index of the id entry holding `id`, if any.
    fn find_id_entry(&self, id: i32) -> (r: Option<usize>)
        requires
            self.wf(),
        ensures
            match r {
                Some(k) => {
                    &&& k < self.id_map@.len()
                    &&& self.id_map@[k as int].0 == id
                    &&& self.has_id(id)
                    &&& self.id_map@[k as int].1 == self.handle_of_id(id)
                },
                None => !self.has_id(id),
            },
    {
        let n = self.id_map.len();
        let mut k: usize = 0;
        while k < n
            invariant
                n == self.id_map@.len(),
                0 <= k <= n,
                self.wf(),
                forall|m: int| 0 <= m < k ==> (#[trigger] self.id_map@[m]).0 != id,
            decreases n - k,
        {
            if self.id_map[k].0 == id {
                proof {
                    let k2 = choose|m: int|
                        0 <= m < self.id_map@.len() && (#[trigger] self.id_map@[m]).0 == id;
                    if k as int != k2 {
                        assert(self.id_map@[k as int].0 != self.id_map@[k2].0);
                    }
                }
                return Some(k);
            }
            k = k + 1;
        }
        None
    }

    /// Logs a freshly built session in: inserts it into the arena and all
    /// three indices — token, then id, then name — bumps the live count,
    /// and returns the session's token.
    pub fn login(&mut self, player: Session) -> (token: String)
        requires
            old(self).wf(),
            player.wf(),
            !old(self).has_token(player.token@),
            !old(self).has_id(player.id),
            !old(self).has_name(player.name@),
            (player.u_name matches Some(u) ==> !old(self).has_name(u@)),
        ensures
            final(self).wf(),
            token@ == player.token@,
            final(self).live_count() == old(self).live_count() + 1,
            final(self).has_token(player.token@),
            final(self).session_of_token(player.token@) == player,
            final(self).has_id(player.id),
            final(self).session_of_id(player.id) == player,
            forall|t: Seq<char>|
                t != player.token@ ==> (final(self).has_token(t) <==> old(self).has_token(t)),
            forall|t: Seq<char>|
                old(self).has_token(t) ==> final(self).session_of_token(t) == old(self).session_of_token(t),
            forall|i: i32| i != player.id ==> (final(self).has_id(i) <==> old(self).has_id(i)),
            forall|i: i32|
                old(self).has_id(i) ==> final(self).session_of_id(i) == old(self).session_of_id(i),
            forall|n: Seq<char>|
                final(self).has_name(n) <==> (old(self).has_name(n) || n == player.name@ || (
                player.u_name matches Some(u) && n == u@)),
    {
        let token = player.token.clone();
        let token_key = player.token.clone();
        let name_key = player.name.clone();
        let u_name_key: Option<String> = match &player.u_name {
            Some(u) => Some(u.clone()),
            None => None,
        };
        let id = player.id;
        let h = self.slots.len();
        self.slots.push(Some(player));
        self.token_map.push((token_key, h));
        self.id_map.push((id, h));
        self.name_map.push((name_key, h));
        match u_name_key {
            Some(u) => self.name_map.push((u, h)),
            None => (),
        }
        self.player_count = self.token_map.len();
        proof {
            let pre = *old(self);
            let post = *final(self);
            let hh = h as int;
            assert(post.live(hh));
            assert(post.at(hh) == player);
            assert forall|h2: int| pre.live(h2) implies post.live(h2) && post.at(h2) == pre.at(
                h2,
            ) by {}
            assert forall|h2: int| post.live(h2) && h2 != hh implies pre.live(h2) by {}
            // entry validity and key uniqueness carry over entry by entry
            assert forall|k: int| 0 <= k < post.token_map@.len() implies #[trigger] post
                .token_entry_ok(k) by {
                if k < pre.token_map@.len() {
                    assert(pre.token_entry_ok(k));
                    assert(post.token_map@[k] == pre.token_map@[k]);
                }
            }
            assert forall|k: int| 0 <= k < post.id_map@.len() implies #[trigger] post.id_entry_ok(
                k,
            ) by {
                if k < pre.id_map@.len() {
                    assert(pre.id_entry_ok(k));
                    assert(post.id_map@[k] == pre.id_map@[k]);
                }
            }
            assert forall|k: int| 0 <= k < post.name_map@.len() implies #[trigger] post
                .name_entry_ok(k) by {
                if k < pre.name_map@.len() {
                    assert(pre.name_entry_ok(k));
                    assert(post.name_map@[k] == pre.name_map@[k]);
                }
            }
            // every live session is still registered
            assert forall|h2: int| #[trigger] post.live(h2) implies {
                &&& post.token_map_has(post.at(h2).token@, h2)
                &&& post.id_map_has(post.at(h2).id, h2)
                &&& post.name_map_has(post.at(h2).name@, h2)
                &&& (post.at(h2).u_name matches Some(u) ==> post.name_map_has(u@, h2))
                &&& post.at(h2).wf()
            } by {
                if h2 == hh {
                    assert(post.token_map@[pre.token_map@.len() as int]
                        == (post.token_map@[pre.token_map@.len() as int].0, h));
                    assert(post.token_map@[pre.token_map@.len() as int].0@ == player.token@);
                    assert(post.id_map@[pre.id_map@.len() as int].0 == player.id);
                    assert(post.name_map@[pre.name_map@.len() as int].0@ == player.name@);
                    if player.u_name is Some {
                        assert(post.name_map@[pre.name_map@.len() as int + 1].0@
                            == player.u_name->Some_0@);
                    }
                } else {
                    assert(pre.live(h2));
                    let t2 = pre.at(h2).token@;
                    let k_t = choose|k: int|
                        0 <= k < pre.token_map@.len() && (#[trigger] pre.token_map@[k]).0@ == t2
                            && pre.token_map@[k].1 == h2;
                    assert(post.token_map@[k_t] == pre.token_map@[k_t]);
                    let k_i = choose|k: int|
                        0 <= k < pre.id_map@.len() && (#[trigger] pre.id_map@[k]).0 == pre.at(
                            h2,
                        ).id && pre.id_map@[k].1 == h2;
                    assert(post.id_map@[k_i] == pre.id_map@[k_i]);
                    let k_n = choose|k: int|
                        0 <= k < pre.name_map@.len() && (#[trigger] pre.name_map@[k]).0@ == pre.at(
                            h2,
                        ).name@ && pre.name_map@[k].1 == h2;
                    assert(post.name_map@[k_n] == pre.name_map@[k_n]);
                    if pre.at(h2).u_name is Some {
                        let k_u = choose|k: int|
                            0 <= k < pre.name_map@.len() && (#[trigger] pre.name_map@[k]).0@
                                == pre.at(h2).u_name->Some_0@ && pre.name_map@[k].1 == h2;
                        assert(post.name_map@[k_u] == pre.name_map@[k_u]);
                    }
                }
            }
            assert(post.wf());
            // lookups land on the new session
            post.lemma_token_functional(hh);
            post.lemma_id_functional(hh);
            // old lookups are untouched
            assert forall|t: Seq<char>| pre.has_token(t) implies post.session_of_token(t)
                == pre.session_of_token(t) by {
                let k = choose|k: int|
                    0 <= k < pre.token_map@.len() && (#[trigger] pre.token_map@[k]).0@ == t;
                assert(post.token_map@[k] == pre.token_map@[k]);
                assert(post.has_token(t));
                let k2 = choose|k2: int|
                    0 <= k2 < post.token_map@.len() && (#[trigger] post.token_map@[k2]).0@ == t;
                post.lemma_token_entry_unique(k, k2);
                let k3 = choose|k3: int|
                    0 <= k3 < pre.token_map@.len() && (#[trigger] pre.token_map@[k3]).0@ == t;
                pre.lemma_token_entry_unique(k, k3);
                assert(pre.token_map@[k].1 < pre.slots@.len()) by {
                    assert(pre.token_entry_ok(k));
                }
            }
            assert forall|t: Seq<char>| pre.has_token(t) implies post.has_token(t) by {
                let k = choose|k: int|
                    0 <= k < pre.token_map@.len() && (#[trigger] pre.token_map@[k]).0@ == t;
                assert(post.token_map@[k] == pre.token_map@[k]);
            }
            assert forall|i: i32| pre.has_id(i) implies post.has_id(i) by {
                let k = choose|k: int|
                    0 <= k < pre.id_map@.len() && (#[trigger] pre.id_map@[k]).0 == i;
                assert(post.id_map@[k] == pre.id_map@[k]);
            }
            assert forall|t: Seq<char>| t != player.token@ && post.has_token(t) implies pre
                .has_token(t) by {
                let k = choose|k: int|
                    0 <= k < post.token_map@.len() && (#[trigger] post.token_map@[k]).0@ == t;
                assert(k < pre.token_map@.len());
                assert(pre.token_map@[k].0@ == t);
            }
            assert forall|i: i32| pre.has_id(i) implies post.session_of_id(i)
                == pre.session_of_id(i) by {
                let k = choose|k: int|
                    0 <= k < pre.id_map@.len() && (#[trigger] pre.id_map@[k]).0 == i;
                assert(post.id_map@[k] == pre.id_map@[k]);
                assert(post.has_id(i));
                let k2 = choose|k2: int|
                    0 <= k2 < post.id_map@.len() && (#[trigger] post.id_map@[k2]).0 == i;
                if k != k2 {
                    assert(post.id_map@[k].0 != post.id_map@[k2].0);
                }
                let k3 = choose|k3: int|
                    0 <= k3 < pre.id_map@.len() && (#[trigger] pre.id_map@[k3]).0 == i;
                if k != k3 {
                    assert(pre.id_map@[k].0 != pre.id_map@[k3].0);
                }
                assert(pre.id_map@[k].1 < pre.slots@.len()) by {
                    assert(pre.id_entry_ok(k));
                }
            }
            assert forall|i: i32| i != player.id && post.has_id(i) implies pre.has_id(i) by {
                let k = choose|k: int|
                    0 <= k < post.id_map@.len() && (#[trigger] post.id_map@[k]).0 == i;
                assert(k < pre.id_map@.len());
                assert(pre.id_map@[k].0 == i);
            }
            assert forall|n: Seq<char>|
                post.has_name(n) implies (pre.has_name(n) || n == player.name@ || (
            player.u_name matches Some(u)
                && n == u@)) by {
                let k = choose|k: int|
                    0 <= k < post.name_map@.len() && (#[trigger] post.name_map@[k]).0@ == n;
                if k < pre.name_map@.len() {
                    assert(pre.name_map@[k].0@ == n);
                }
            }
            assert(post.name_map@[pre.name_map@.len() as int].0@ == player.name@);
            assert(post.has_name(player.name@));
            if player.u_name is Some {
                assert(post.name_map@[pre.name_map@.len() as int + 1].0@ == player.u_name->Some_0@);
                assert(post.has_name(player.u_name->Some_0@));
            }
            assert forall|n: Seq<char>| pre.has_name(n) implies post.has_name(n) by {
                let k = choose|k: int|
                    0 <= k < pre.name_map@.len() && (#[trigger] pre.name_map@[k]).0@ == n;
                assert(post.name_map@[k] == pre.name_map@[k]);
            }
        }
        token
    }

    /// Appends one pre-encoded frame to every live session's mailbox; a
    /// best-effort broadcast with no acknowledgement.
    pub fn enqueue_all(&mut self, packet_data: &Vec<u8>)
        requires
            old(self).wf(),
        ensures
            final(self).wf(),
            final(self).token_map@ == old(self).token_map@,
            final(self).id_map@ == old(self).id_map@,
            final(self).name_map@ == old(self).name_map@,
            final(self).player_count == old(self).player_count,
            final(self).slots@.len() == old(self).slots@.len(),
            forall|h: int|
                0 <= h < old(self).slots@.len() && !old(self).live(h) ==> final(self).slots@[h]
                    == old(self).slots@[h],
            forall|h: int|
                #[trigger] old(self).live(h) ==> ({
                    &&& final(self).live(h)
                    &&& (final(self).at(h) == (Session {
                        mailbox: final(self).at(h).mailbox,
                        ..old(self).at(h)
                    }))
                    &&& final(self).at(h).mailbox_view() == old(self).at(h).mailbox_view().push(
                        packet_data@,
                    )
                }),
    {
        let n = self.slots.len();
        let mut h: usize = 0;
        while h < n
            invariant
                n == self.slots@.len(),
                0 <= h <= n,
                self.token_map@ == old(self).token_map@,
                self.id_map@ == old(self).id_map@,
                self.name_map@ == old(self).name_map@,
                self.player_count == old(self).player_count,
                self.slots@.len() == old(self).slots@.len(),
                forall|g: int| h <= g < n ==> self.slots@[g] == old(self).slots@[g],
                forall|g: int|
                    0 <= g < h && !old(self).live(g) ==> self.slots@[g] == old(self).slots@[g],
                forall|g: int|
                    0 <= g < h && #[trigger] old(self).live(g) ==> self.live(g) && (self.at(g)
                        == (Session { mailbox: self.at(g).mailbox, ..old(self).at(g) }))
                        && self.at(g).mailbox_view() == old(self).at(g).mailbox_view().push(
                        packet_data@,
                    ),
            decreases n - h,
        {
            let ghost slots0 = self.slots@;
            let mut taken: Option<Session> = None;
            self.slots.set_and_swap(h, &mut taken);
            match taken {
                Some(mut s) => {
                    s.enqueue(clone_bytes(packet_data));
                    self.slots.set(h, Some(s));
                },
                None => {
                    proof {
                        assert(slots0[h as int] is None);
                        assert(self.slots@ =~= slots0);
                    }
                },
            }
            h = h + 1;
        }
        proof {
            let pre = *old(self);
            let post = *final(self);
            assert forall|g: int| #[trigger] pre.live(g) implies post.live(g) by {}
            assert forall|k: int| 0 <= k < post.token_map@.len() implies #[trigger] post
                .token_entry_ok(k) by {
                assert(pre.token_entry_ok(k));
            }
            assert forall|k: int| 0 <= k < post.id_map@.len() implies #[trigger] post.id_entry_ok(
                k,
            ) by {
                assert(pre.id_entry_ok(k));
            }
            assert forall|k: int| 0 <= k < post.name_map@.len() implies #[trigger] post
                .name_entry_ok(k) by {
                assert(pre.name_entry_ok(k));
            }
            assert forall|g: int| #[trigger] post.live(g) implies {
                &&& post.token_map_has(post.at(g).token@, g)
                &&& post.id_map_has(post.at(g).id, g)
                &&& post.name_map_has(post.at(g).name@, g)
                &&& (post.at(g).u_name matches Some(u) ==> post.name_map_has(u@, g))
                &&& post.at(g).wf()
            } by {
                assert(pre.live(g));
            }
        }
    }

    /// Logs the session holding `token` out: removes it from the arena and
    /// all three indices, lowers the live count, broadcasts a logout notice
    /// to every remaining session, and returns the departed session's final
    /// snapshot.  An unknown token is a no-op.
    pub fn logout(&mut self, token: &String) -> (r: Option<Session>)
        requires
            old(self).wf(),
        ensures
            final(self).wf(),
            !old(self).has_token(token@) ==> r is None && *final(self) == *old(self),
            old(self).has_token(token@) ==> ({
                let s = old(self).session_of_token(token@);
                &&& r == Some(s)
                &&& final(self).live_count() == old(self).live_count() - 1
                &&& !final(self).has_token(token@)
                &&& !final(self).has_id(s.id)
                &&& !final(self).has_name(s.name@)
                &&& (s.u_name matches Some(u) ==> !final(self).has_name(u@))
                &&& forall|t: Seq<char>|
                    t != token@ ==> (final(self).has_token(t) <==> old(self).has_token(t))
                &&& forall|i: i32| i != s.id ==> (final(self).has_id(i) <==> old(self).has_id(i))
                &&& forall|n: Seq<char>|
                    n != s.name@ && !(s.u_name matches Some(u) && n == u@) ==> (
                    final(self).has_name(n) <==> old(self).has_name(n))
                &&& forall|t: Seq<char>|
                    t != token@ && old(self).has_token(t) ==> ({
                        let s0 = old(self).session_of_token(t);
                        let s1 = final(self).session_of_token(t);
                        &&& s1 == (Session { mailbox: s1.mailbox, ..s0 })
                        &&& s1.mailbox_view() == s0.mailbox_view().push(spec_user_logout(s.id))
                    })
            }),
    {
        let kt = match self.find_token_entry(token) {
            Some(k) => k,
            None => {
                return None;
            },
        };
        let h = self.token_map[kt].1;
        proof {
            assert(self.token_entry_ok(kt as int));
        }
        let mut taken: Option<Session> = None;
        self.slots.set_and_swap(h, &mut taken);
        let s = match taken {
            Some(s) => s,
            None => {
                proof {
                    assert(false);
                }
                return None;
            },
        };
        let ghost pre = *old(self);
        let ghost hh = h as int;
        proof {
            // the departing session's entries are exactly one per index key
            assert forall|k: int|
                0 <= k < pre.token_map@.len() && k != kt implies (#[trigger] pre.token_map@[k]).1
                    != h by {
                if pre.token_map@[k].1 == h {
                    assert(pre.token_entry_ok(k));
                    pre.lemma_token_entry_unique(k, kt as int);
                }
            }
            lemma_remove_handle_len_one(pre.token_map@, h, kt as int);
            lemma_remove_handle_entries(pre.token_map@, h);
            lemma_remove_handle_entries(pre.id_map@, h);
            lemma_remove_handle_entries(pre.name_map@, h);
            lemma_remove_handle_unique_str(pre.token_map@, h);
            lemma_remove_handle_unique_id(pre.id_map@, h);
            lemma_remove_handle_unique_str(pre.name_map@, h);
        }
        remove_handle_entries_str(&mut self.token_map, h);
        remove_handle_entries_id(&mut self.id_map, h);
        remove_handle_entries_str(&mut self.name_map, h);
        self.player_count = self.token_map.len();
        proof {
            let mid = *self;
            assert(s == pre.at(hh));
            pre.lemma_token_functional(hh);
            assert(pre.session_of_token(token@) == s);
            assert(mid.slots@ =~= pre.slots@.update(hh, Option::<Session>::None));
            // entry validity: every surviving entry names a slot other than h
            assert forall|k: int| 0 <= k < mid.token_map@.len() implies #[trigger] mid
                .token_entry_ok(k) by {
                let e = mid.token_map@[k];
                assert(pre.token_map@.contains(e) && e.1 != h);
                let k0 = choose|k0: int|
                    0 <= k0 < pre.token_map@.len() && pre.token_map@[k0] == e;
                assert(pre.token_entry_ok(k0));
            }
            assert forall|k: int| 0 <= k < mid.id_map@.len() implies #[trigger] mid.id_entry_ok(
                k,
            ) by {
                let e = mid.id_map@[k];
                assert(pre.id_map@.contains(e) && e.1 != h);
                let k0 = choose|k0: int| 0 <= k0 < pre.id_map@.len() && pre.id_map@[k0] == e;
                assert(pre.id_entry_ok(k0));
            }
            assert forall|k: int| 0 <= k < mid.name_map@.len() implies #[trigger] mid
                .name_entry_ok(k) by {
                let e = mid.name_map@[k];
                assert(pre.name_map@.contains(e) && e.1 != h);
                let k0 = choose|k0: int| 0 <= k0 < pre.name_map@.len() && pre.name_map@[k0] == e;
                assert(pre.name_entry_ok(k0));
            }
            // registration of remaining live sessions
            assert forall|g: int| #[trigger] mid.live(g) implies {
                &&& mid.token_map_has(mid.at(g).token@, g)
                &&& mid.id_map_has(mid.at(g).id, g)
                &&& mid.name_map_has(mid.at(g).name@, g)
                &&& (mid.at(g).u_name matches Some(u) ==> mid.name_map_has(u@, g))
                &&& mid.at(g).wf()
            } by {
                assert(g != hh);
                assert(pre.live(g));
                assert(mid.at(g) == pre.at(g));
                let kt2 = choose|k: int|
                    0 <= k < pre.token_map@.len() && (#[trigger] pre.token_map@[k]).0@ == pre.at(
                        g,
                    ).token@ && pre.token_map@[k].1 == g;
                assert(pre.token_map@.contains(pre.token_map@[kt2]));
                assert(mid.token_map@.contains(pre.token_map@[kt2]));
                let j = choose|j: int|
                    0 <= j < mid.token_map@.len() && mid.token_map@[j] == pre.token_map@[kt2];
                assert(mid.token_map@[j].0@ == pre.at(g).token@ && mid.token_map@[j].1 == g);
                let ki2 = choose|k: int|
                    0 <= k < pre.id_map@.len() && (#[trigger] pre.id_map@[k]).0 == pre.at(g).id
                        && pre.id_map@[k].1 == g;
                assert(pre.id_map@.contains(pre.id_map@[ki2]));
                assert(mid.id_map@.contains(pre.id_map@[ki2]));
                let ji = choose|j: int|
                    0 <= j < mid.id_map@.len() && mid.id_map@[j] == pre.id_map@[ki2];
                assert(mid.id_map@[ji].0 == pre.at(g).id && mid.id_map@[ji].1 == g);
                let kn2 = choose|k: int|
                    0 <= k < pre.name_map@.len() && (#[trigger] pre.name_map@[k]).0@ == pre.at(
                        g,
                    ).name@ && pre.name_map@[k].1 == g;
                assert(pre.name_map@.contains(pre.name_map@[kn2]));
                assert(mid.name_map@.contains(pre.name_map@[kn2]));
                let jn = choose|j: int|
                    0 <= j < mid.name_map@.len() && mid.name_map@[j] == pre.name_map@[kn2];
                assert(mid.name_map@[jn].0@ == pre.at(g).name@ && mid.name_map@[jn].1 == g);
                if pre.at(g).u_name is Some {
                    let ku2 = choose|k: int|
                        0 <= k < pre.name_map@.len() && (#[trigger] pre.name_map@[k]).0@ == pre.at(
                            g,
                        ).u_name->Some_0@ && pre.name_map@[k].1 == g;
                    assert(pre.name_map@.contains(pre.name_map@[ku2]));
                    assert(mid.name_map@.contains(pre.name_map@[ku2]));
                    let ju = choose|j: int|
                        0 <= j < mid.name_map@.len() && mid.name_map@[j] == pre.name_map@[ku2];
                    assert(mid.name_map@[ju].0@ == pre.at(g).u_name->Some_0@ && mid.name_map@[ju].1
                        == g);
                }
            }
            assert(mid.wf());
            // the departed keys are gone
            assert forall|k: int| 0 <= k < mid.token_map@.len() implies (
            #[trigger] mid.token_map@[k]).0@ != token@ by {
                let e = mid.token_map@[k];
                assert(pre.token_map@.contains(e) && e.1 != h);
                let k0 = choose|k0: int|
                    0 <= k0 < pre.token_map@.len() && pre.token_map@[k0] == e;
                if e.0@ == token@ {
                    pre.lemma_token_entry_unique(k0, kt as int);
                }
            }
            assert(!mid.has_token(token@));
            assert forall|k: int| 0 <= k < mid.id_map@.len() implies (#[trigger] mid.id_map@[k]).0
                != s.id by {
                let e = mid.id_map@[k];
                assert(pre.id_map@.contains(e) && e.1 != h);
                let k0 = choose|k0: int| 0 <= k0 < pre.id_map@.len() && pre.id_map@[k0] == e;
                assert(pre.id_entry_ok(k0));
                if e.0 == s.id {
                    let ki = choose|ki: int|
                        0 <= ki < pre.id_map@.len() && (#[trigger] pre.id_map@[ki]).0 == s.id
                            && pre.id_map@[ki].1 == hh;
                    if k0 != ki {
                        assert(pre.id_map@[k0].0 != pre.id_map@[ki].0);
                    }
                }
            }
            assert(!mid.has_id(s.id));
            assert forall|k: int|
                0 <= k < mid.name_map@.len() implies (#[trigger] mid.name_map@[k]).0@ != s.name@
                && !(s.u_name matches Some(u) && mid.name_map@[k].0@ == u@) by {
                let e = mid.name_map@[k];
                assert(pre.name_map@.contains(e) && e.1 != h);
                let k0 = choose|k0: int|
                    0 <= k0 < pre.name_map@.len() && pre.name_map@[k0] == e;
                if e.0@ == s.name@ {
                    let kn = choose|kn: int|
                        0 <= kn < pre.name_map@.len() && (#[trigger] pre.name_map@[kn]).0@
                            == s.name@ && pre.name_map@[kn].1 == hh;
                    if k0 != kn {
                        assert(pre.name_map@[k0].0@ != pre.name_map@[kn].0@);
                    }
                }
                if s.u_name is Some && e.0@ == s.u_name->Some_0@ {
                    let ku = choose|ku: int|
                        0 <= ku < pre.name_map@.len() && (#[trigger] pre.name_map@[ku]).0@
                            == s.u_name->Some_0@ && pre.name_map@[ku].1 == hh;
                    if k0 != ku {
                        assert(pre.name_map@[k0].0@ != pre.name_map@[ku].0@);
                    }
                }
            }
            assert(!mid.has_name(s.name@));
            if s.u_name is Some {
                assert(!mid.has_name(s.u_name->Some_0@));
            }
            // other keys keep their sessions
            assert forall|t: Seq<char>| t != token@ && pre.has_token(t) implies mid.has_token(t)
                && mid.session_of_token(t) == pre.session_of_token(t) by {
                let k0 = choose|k0: int|
                    0 <= k0 < pre.token_map@.len() && (#[trigger] pre.token_map@[k0]).0@ == t;
                assert(pre.token_entry_ok(k0));
                assert(pre.token_map@[k0].1 != h) by {
                    if pre.token_map@[k0].1 == h {
                        pre.lemma_token_entry_unique(k0, kt as int);
                    }
                }
                assert(pre.token_map@.contains(pre.token_map@[k0]));
                assert(mid.token_map@.contains(pre.token_map@[k0]));
                let j = choose|j: int|
                    0 <= j < mid.token_map@.len() && mid.token_map@[j] == pre.token_map@[k0];
                assert(mid.has_token(t));
                let jc = choose|jc: int|
                    0 <= jc < mid.token_map@.len() && (#[trigger] mid.token_map@[jc]).0@ == t;
                mid.lemma_token_entry_unique(j, jc);
                let k0c = choose|k0c: int|
                    0 <= k0c < pre.token_map@.len() && (#[trigger] pre.token_map@[k0c]).0@ == t;
                pre.lemma_token_entry_unique(k0, k0c);
            }
            assert forall|i: i32| i != s.id && pre.has_id(i) implies mid.has_id(i) by {
                let k0 = choose|k0: int|
                    0 <= k0 < pre.id_map@.len() && (#[trigger] pre.id_map@[k0]).0 == i;
                assert(pre.id_entry_ok(k0));
                assert(pre.id_map@[k0].1 != h) by {
                    if pre.id_map@[k0].1 == h {
                        assert(pre.at(hh).id == i);
                        pre.lemma_id_functional(hh);
                    }
                }
                assert(pre.id_map@.contains(pre.id_map@[k0]));
                assert(mid.id_map@.contains(pre.id_map@[k0]));
                let j = choose|j: int|
                    0 <= j < mid.id_map@.len() && mid.id_map@[j] == pre.id_map@[k0];
                assert(mid.id_map@[j].0 == i);
            }
            assert forall|i: i32| mid.has_id(i) implies pre.has_id(i) by {
                let k0 = choose|k0: int|
                    0 <= k0 < mid.id_map@.len() && (#[trigger] mid.id_map@[k0]).0 == i;
                assert(pre.id_map@.contains(mid.id_map@[k0]));
                let j = choose|j: int|
                    0 <= j < pre.id_map@.len() && pre.id_map@[j] == mid.id_map@[k0];
                assert(pre.id_map@[j].0 == i);
            }
            assert forall|t: Seq<char>| mid.has_token(t) implies pre.has_token(t) by {
                let k0 = choose|k0: int|
                    0 <= k0 < mid.token_map@.len() && (#[trigger] mid.token_map@[k0]).0@ == t;
                assert(pre.token_map@.contains(mid.token_map@[k0]));
                let j = choose|j: int|
                    0 <= j < pre.token_map@.len() && pre.token_map@[j] == mid.token_map@[k0];
                assert(pre.token_map@[j].0@ == t);
            }
            assert forall|n: Seq<char>| mid.has_name(n) implies pre.has_name(n) by {
                let k0 = choose|k0: int|
                    0 <= k0 < mid.name_map@.len() && (#[trigger] mid.name_map@[k0]).0@ == n;
                assert(pre.name_map@.contains(mid.name_map@[k0]));
                let j = choose|j: int|
                    0 <= j < pre.name_map@.len() && pre.name_map@[j] == mid.name_map@[k0];
                assert(pre.name_map@[j].0@ == n);
            }
            assert forall|n: Seq<char>|
                n != s.name@ && !(s.u_name matches Some(u) && n == u@) && pre.has_name(
                    n,
                ) implies mid.has_name(n) by {
                let k0 = choose|k0: int|
                    0 <= k0 < pre.name_map@.len() && (#[trigger] pre.name_map@[k0]).0@ == n;
                assert(pre.name_entry_ok(k0));
                assert(pre.name_map@[k0].1 != h) by {
                    if pre.name_map@[k0].1 == h {
                        assert(pre.at(hh).name@ == n || (pre.at(hh).u_name matches Some(u) && u@
                            == n));
                    }
                }
                assert(pre.name_map@.contains(pre.name_map@[k0]));
                assert(mid.name_map@.contains(pre.name_map@[k0]));
                let j = choose|j: int|
                    0 <= j < mid.name_map@.len() && mid.name_map@[j] == pre.name_map@[k0];
                assert(mid.name_map@[j].0@ == n);
            }
        }
        let ghost mid = *self;
        let packet = user_logout_packet(s.id);
        self.enqueue_all(&packet);
        proof {
            let post = *final(self);
            assert forall|t: Seq<char>| t != token@ && pre.has_token(t) implies ({
                let s0 = pre.session_of_token(t);
                let s1 = post.session_of_token(t);
                &&& post.has_token(t)
                &&& s1 == (Session { mailbox: s1.mailbox, ..s0 })
                &&& s1.mailbox_view() == s0.mailbox_view().push(spec_user_logout(s.id))
            }) by {
                let hm = mid.handle_of_token(t);
                mid.lemma_token_lookup_live(t);
                assert(post.handle_of_token(t) == hm);
                assert(mid.live(hm));
                assert(post.at(hm) == (Session { mailbox: post.at(hm).mailbox, ..mid.at(hm) }));
            }
        }
        Some(s)
    }

    /// Replacing one live session with one that keeps its keys keeps the
    /// directory invariant.
    pub proof fn lemma_wf_slot_update(pre: PlayerSessions, post: PlayerSessions, hh: int)
        requires
            pre.wf(),
            post.token_map@ == pre.token_map@,
            post.id_map@ == pre.id_map@,
            post.name_map@ == pre.name_map@,
            post.player_count == pre.player_count,
            post.slots@.len() == pre.slots@.len(),
            forall|g: int|
                0 <= g < pre.slots@.len() && g != hh ==> post.slots@[g] == pre.slots@[g],
            pre.live(hh),
            post.live(hh),
            post.at(hh).token@ == pre.at(hh).token@,
            post.at(hh).id == pre.at(hh).id,
            post.at(hh).name@ == pre.at(hh).name@,
            post.at(hh).u_name == pre.at(hh).u_name,
            post.at(hh).wf(),
        ensures
            post.wf(),
    {
        assert forall|k: int| 0 <= k < post.token_map@.len() implies #[trigger] post
            .token_entry_ok(k) by {
            assert(pre.token_entry_ok(k));
        }
        assert forall|k: int| 0 <= k < post.id_map@.len() implies #[trigger] post.id_entry_ok(
            k,
        ) by {
            assert(pre.id_entry_ok(k));
        }
        assert forall|k: int| 0 <= k < post.name_map@.len() implies #[trigger] post.name_entry_ok(
            k,
        ) by {
            assert(pre.name_entry_ok(k));
        }
        assert forall|g: int| #[trigger] post.live(g) implies {
            &&& post.token_map_has(post.at(g).token@, g)
            &&& post.id_map_has(post.at(g).id, g)
            &&& post.name_map_has(post.at(g).name@, g)
            &&& (post.at(g).u_name matches Some(u) ==> post.name_map_has(u@, g))
            &&& post.at(g).wf()
        } by {
            assert(pre.live(g));
        }
    }

    /// Only the session behind `h` changed; every index, the count, and
    /// every other slot are as they were.
    pub open spec fn only_session_changed(pre: PlayerSessions, post: PlayerSessions, h: int) -> bool {
        &&& post.token_map@ == pre.token_map@
        &&& post.id_map@ == pre.id_map@
        &&& post.name_map@ == pre.name_map@
        &&& post.player_count == pre.player_count
        &&& post.slots@.len() == pre.slots@.len()
        &&& forall|g: int| 0 <= g < pre.slots@.len() && g != h ==> post.slots@[g] == pre.slots@[g]
        &&& pre.live(h)
        &&& post.live(h)
    }

    /// Sets the presence filter of the session behind `h`.
    pub fn set_presence_filter(&mut self, h: usize, filter: crate::modes::PresenceFilter)
        requires
            old(self).wf(),
            old(self).live(h as int),
        ensures
            final(self).wf(),
            PlayerSessions::only_session_changed(*old(self), *final(self), h as int),
            final(self).at(h as int) == (Session {
                presence_filter: filter,
                ..old(self).at(h as int)
            }),
    {
        let mut taken: Option<Session> = None;
        self.slots.set_and_swap(h, &mut taken);
        match taken {
            Some(mut s) => {
                s.presence_filter = filter;
                self.slots.set(h, Some(s));
                proof {
                    PlayerSessions::lemma_wf_slot_update(*old(self), *final(self), h as int);
                }
            },
            None => {
                proof {
                    assert(false);
                }
            },
        }
    }

    /// Sets the away message of the session behind `h`.
    pub fn set_away_message(&mut self, h: usize, message: String)
        requires
            old(self).wf(),
            old(self).live(h as int),
        ensures
            final(self).wf(),
            PlayerSessions::only_session_changed(*old(self), *final(self), h as int),
            final(self).at(h as int) == (Session {
                away_message: final(self).at(h as int).away_message,
                ..old(self).at(h as int)
            }),
            final(self).at(h as int).away_message@ == message@,
    {
        let mut taken: Option<Session> = None;
        self.slots.set_and_swap(h, &mut taken);
        match taken {
            Some(mut s) => {
                s.away_message = message;
                self.slots.set(h, Some(s));
                proof {
                    PlayerSessions::lemma_wf_slot_update(*old(self), *final(self), h as int);
                }
            },
            None => {
                proof {
                    assert(false);
                }
            },
        }
    }

    /// Records whether the session behind `h` sits in the lobby.
    pub fn set_in_lobby(&mut self, h: usize, in_lobby: bool)
        requires
            old(self).wf(),
            old(self).live(h as int),
        ensures
            final(self).wf(),
            PlayerSessions::only_session_changed(*old(self), *final(self), h as int),
            final(self).at(h as int) == (Session { in_lobby, ..old(self).at(h as int) }),
    {
        let mut taken: Option<Session> = None;
        self.slots.set_and_swap(h, &mut taken);
        match taken {
            Some(mut s) => {
                s.in_lobby = in_lobby;
                self.slots.set(h, Some(s));
                proof {
                    PlayerSessions::lemma_wf_slot_update(*old(self), *final(self), h as int);
                }
            },
            None => {
                proof {
                    assert(false);
                }
            },
        }
    }

    /// Records whether the session behind `h` blocks messages from
    /// non-friends.
    pub fn set_block_non_friend_dms(&mut self, h: usize, value: bool)
        requires
            old(self).wf(),
            old(self).live(h as int),
        ensures
            final(self).wf(),
            PlayerSessions::only_session_changed(*old(self), *final(self), h as int),
            final(self).at(h as int) == (Session {
                only_friend_pm_allowed: value,
                ..old(self).at(h as int)
            }),
    {
        let mut taken: Option<Session> = None;
        self.slots.set_and_swap(h, &mut taken);
        match taken {
            Some(mut s) => {
                s.only_friend_pm_allowed = value;
                self.slots.set(h, Some(s));
                proof {
                    PlayerSessions::lemma_wf_slot_update(*old(self), *final(self), h as int);
                }
            },
            None => {
                proof {
                    assert(false);
                }
            },
        }
    }

    /// Replaces the whole status block of the session behind `h` as one
    /// unit.
    pub fn update_status_at(
        &mut self,
        h: usize,
        action: crate::modes::Action,
        info: String,
        beatmap_md5: String,
        beatmap_id: i32,
        play_mods: u32,
        game_mode: u8,
    )
        requires
            old(self).wf(),
            old(self).live(h as int),
            crate::modes::spec_valid_mode(game_mode),
            vstd::utf8::encode_utf8(info@).len() <= crate::packets::MAX_STRING_FIELD_BYTES,
            vstd::utf8::encode_utf8(beatmap_md5@).len() <= crate::packets::MAX_STRING_FIELD_BYTES,
        ensures
            final(self).wf(),
            PlayerSessions::only_session_changed(*old(self), *final(self), h as int),
            final(self).at(h as int) == (Session {
                status: final(self).at(h as int).status,
                ..old(self).at(h as int)
            }),
            final(self).at(h as int).status.action == action,
            final(self).at(h as int).status.info@ == info@,
            final(self).at(h as int).status.beatmap_md5@ == beatmap_md5@,
            final(self).at(h as int).status.beatmap_id == beatmap_id,
            final(self).at(h as int).status.play_mods == play_mods,
            final(self).at(h as int).status.game_mode == game_mode,
    {
        let mut taken: Option<Session> = None;
        self.slots.set_and_swap(h, &mut taken);
        match taken {
            Some(mut s) => {
                s.update_status(action, info, beatmap_md5, beatmap_id, play_mods, game_mode);
                self.slots.set(h, Some(s));
                proof {
                    PlayerSessions::lemma_wf_slot_update(*old(self), *final(self), h as int);
                }
            },
            None => {
                proof {
                    assert(false);
                }
            },
        }
    }

    /// Loads the cached stats of the session behind `h` for its current
    /// mode, if present; the cache spares a storage round-trip.
    pub fn refresh_stats_at(&mut self, h: usize) -> (hit: bool)
        requires
            old(self).wf(),
            old(self).live(h as int),
        ensures
            final(self).wf(),
            PlayerSessions::only_session_changed(*old(self), *final(self), h as int),
            final(self).at(h as int) == (Session {
                stats: final(self).at(h as int).stats,
                ..old(self).at(h as int)
            }),
            match crate::session::spec_cache_lookup(
                old(self).at(h as int).stats_cache@,
                old(self).at(h as int).status.game_mode,
            ) {
                Some(st) => hit && final(self).at(h as int).stats == st,
                None => !hit && final(self).at(h as int) == old(self).at(h as int),
            },
    {
        let mut taken: Option<Session> = None;
        self.slots.set_and_swap(h, &mut taken);
        match taken {
            Some(mut s) => {
                let hit = s.stats_from_cache();
                self.slots.set(h, Some(s));
                proof {
                    PlayerSessions::lemma_wf_slot_update(*old(self), *final(self), h as int);
                }
                hit
            },
            None => {
                proof {
                    assert(false);
                }
                false
            },
        }
    }

    /// Adds a friend id to the session behind `h`; a no-op when present.
    pub fn friends_add_at(&mut self, h: usize, target: i32) -> (added: bool)
        requires
            old(self).wf(),
            old(self).live(h as int),
        ensures
            final(self).wf(),
            PlayerSessions::only_session_changed(*old(self), *final(self), h as int),
            final(self).at(h as int) == (Session {
                friends: final(self).at(h as int).friends,
                ..old(self).at(h as int)
            }),
            added <==> !old(self).at(h as int).friends@.contains(target),
            forall|x: i32|
                final(self).at(h as int).friends@.contains(x) <==> (old(self).at(
                    h as int,
                ).friends@.contains(x) || x == target),
            !added ==> final(self).at(h as int) == old(self).at(h as int),
    {
        let mut taken: Option<Session> = None;
        self.slots.set_and_swap(h, &mut taken);
        match taken {
            Some(mut s) => {
                let added = s.friends_add(target);
                self.slots.set(h, Some(s));
                proof {
                    PlayerSessions::lemma_wf_slot_update(*old(self), *final(self), h as int);
                }
                added
            },
            None => {
                proof {
                    assert(false);
                }
                false
            },
        }
    }

    /// Removes a friend id from the session behind `h`; a no-op when
    /// absent.
    pub fn friends_remove_at(&mut self, h: usize, target: i32) -> (removed: bool)
        requires
            old(self).wf(),
            old(self).live(h as int),
        ensures
            final(self).wf(),
            PlayerSessions::only_session_changed(*old(self), *final(self), h as int),
            final(self).at(h as int) == (Session {
                friends: final(self).at(h as int).friends,
                ..old(self).at(h as int)
            }),
            removed <==> old(self).at(h as int).friends@.contains(target),
            forall|x: i32|
                final(self).at(h as int).friends@.contains(x) <==> (old(self).at(
                    h as int,
                ).friends@.contains(x) && x != target),
            !removed ==> final(self).at(h as int) == old(self).at(h as int),
    {
        let mut taken: Option<Session> = None;
        self.slots.set_and_swap(h, &mut taken);
        match taken {
            Some(mut s) => {
                let removed = s.friends_remove(target);
                self.slots.set(h, Some(s));
                proof {
                    PlayerSessions::lemma_wf_slot_update(*old(self), *final(self), h as int);
                }
                removed
            },
            None => {
                proof {
                    assert(false);
                }
                false
            },
        }
    }

    /// Records channel membership on the session behind `h`.
    pub fn channels_add_at(&mut self, h: usize, name: String) -> (added: bool)
        requires
            old(self).wf(),
            old(self).live(h as int),
        ensures
            final(self).wf(),
            PlayerSessions::only_session_changed(*old(self), *final(self), h as int),
            final(self).at(h as int) == (Session {
                channels: final(self).at(h as int).channels,
                ..old(self).at(h as int)
            }),
            final(self).at(h as int).in_channels(name@),
            forall|n: Seq<char>|
                final(self).at(h as int).in_channels(n) <==> (old(self).at(h as int).in_channels(n)
                    || n == name@),
            !added ==> final(self).at(h as int) == old(self).at(h as int),
    {
        let mut taken: Option<Session> = None;
        self.slots.set_and_swap(h, &mut taken);
        match taken {
            Some(mut s) => {
                let added = s.channels_add(name);
                self.slots.set(h, Some(s));
                proof {
                    PlayerSessions::lemma_wf_slot_update(*old(self), *final(self), h as int);
                }
                added
            },
            None => {
                proof {
                    assert(false);
                }
                false
            },
        }
    }

    /// Forgets channel membership on the session behind `h`.
    pub fn channels_remove_at(&mut self, h: usize, name: &String) -> (removed: bool)
        requires
            old(self).wf(),
            old(self).live(h as int),
        ensures
            final(self).wf(),
            PlayerSessions::only_session_changed(*old(self), *final(self), h as int),
            final(self).at(h as int) == (Session {
                channels: final(self).at(h as int).channels,
                ..old(self).at(h as int)
            }),
            forall|n: Seq<char>|
                final(self).at(h as int).in_channels(n) <==> (old(self).at(h as int).in_channels(n)
                    && n != name@),
            !removed ==> final(self).at(h as int) == old(self).at(h as int),
    {
        let mut taken: Option<Session> = None;
        self.slots.set_and_swap(h, &mut taken);
        match taken {
            Some(mut s) => {
                let removed = s.channels_remove(name);
                self.slots.set(h, Some(s));
                proof {
                    PlayerSessions::lemma_wf_slot_update(*old(self), *final(self), h as int);
                }
                removed
            },
            None => {
                proof {
                    assert(false);
                }
                false
            },
        }
    }

    /// Refreshes the last-active timestamp of the session behind `h`.
    pub fn update_active_at(&mut self, h: usize, now: i64)
        requires
            old(self).wf(),
            old(self).live(h as int),
        ensures
            final(self).wf(),
            PlayerSessions::only_session_changed(*old(self), *final(self), h as int),
            final(self).at(h as int) == (Session {
                last_active_time: now,
                ..old(self).at(h as int)
            }),
    {
        let mut taken: Option<Session> = None;
        self.slots.set_and_swap(h, &mut taken);
        match taken {
            Some(mut s) => {
                s.update_active(now);
                self.slots.set(h, Some(s));
                proof {
                    PlayerSessions::lemma_wf_slot_update(*old(self), *final(self), h as int);
                }
            },
            None => {
                proof {
                    assert(false);
                }
            },
        }
    }

    /// Replaces the network and geographic metadata of the session behind
    /// `h` after its address changed.
    pub fn update_ip_at(&mut self, h: usize, ip: String, geo: crate::session::GeoData)
        requires
            old(self).wf(),
            old(self).live(h as int),
        ensures
            final(self).wf(),
            PlayerSessions::only_session_changed(*old(self), *final(self), h as int),
            final(self).at(h as int) == (Session {
                ip: final(self).at(h as int).ip,
                geo,
                ..old(self).at(h as int)
            }),
            final(self).at(h as int).ip@ == ip@,
    {
        let mut taken: Option<Session> = None;
        self.slots.set_and_swap(h, &mut taken);
        match taken {
            Some(mut s) => {
                s.ip = ip;
                s.geo = geo;
                self.slots.set(h, Some(s));
                proof {
                    PlayerSessions::lemma_wf_slot_update(*old(self), *final(self), h as int);
                }
            },
            None => {
                proof {
                    assert(false);
                }
            },
        }
    }

    /// Removes and returns the oldest mailbox entry of the session behind
    /// `h`, if any.
    pub fn dequeue_at(&mut self, h: usize) -> (r: Option<Vec<u8>>)
        requires
            old(self).wf(),
            old(self).live(h as int),
        ensures
            final(self).wf(),
            PlayerSessions::only_session_changed(*old(self), *final(self), h as int),
            final(self).at(h as int) == (Session {
                mailbox: final(self).at(h as int).mailbox,
                ..old(self).at(h as int)
            }),
            match r {
                Some(p) => {
                    &&& old(self).at(h as int).mailbox_view().len() > 0
                    &&& p@ == old(self).at(h as int).mailbox_view()[0]
                    &&& final(self).at(h as int).mailbox_view() == old(self).at(
                        h as int,
                    ).mailbox_view().drop_first()
                },
                None => {
                    &&& old(self).at(h as int).mailbox_view().len() == 0
                    &&& final(self).at(h as int) == old(self).at(h as int)
                },
            },
    {
        let mut taken: Option<Session> = None;
        self.slots.set_and_swap(h, &mut taken);
        match taken {
            Some(mut s) => {
                let r = s.dequeue();
                self.slots.set(h, Some(s));
                proof {
                    PlayerSessions::lemma_wf_slot_update(*old(self), *final(self), h as int);
                }
                r
            },
            None => {
                proof {
                    assert(false);
                }
                None
            },
        }
    }

    /// The stats-update frame of the session behind `h`.
    pub fn stats_packet_at(&self, h: usize) -> (r: Vec<u8>)
        requires
            self.wf(),
            self.live(h as int),
        ensures
            r@ == crate::session::spec_stats_packet(self.at(h as int)),
    {
        match &self.slots[h] {
            Some(s) => s.stats_packet(),
            None => {
                proof {
                    assert(false);
                }
                Vec::new()
            },
        }
    }

    /// The presence frame of the session behind `h`, written for a viewer
    /// whose settings say whether alternate names are shown.
    pub fn presence_packet_at(&self, h: usize, display_u_name: bool) -> (r: Vec<u8>)
        requires
            self.wf(),
            self.live(h as int),
        ensures
            r@ == crate::session::spec_presence_packet(self.at(h as int), display_u_name),
    {
        match &self.slots[h] {
            Some(s) => s.presence_packet(display_u_name),
            None => {
                proof {
                    assert(false);
                }
                Vec::new()
            },
        }
    }

    /// The id of the session behind `h`.
    pub fn id_at(&self, h: usize) -> (r: i32)
        requires
            self.wf(),
            self.live(h as int),
        ensures
            r == self.at(h as int).id,
    {
        match &self.slots[h] {
            Some(s) => s.id,
            None => {
                proof {
                    assert(false);
                }
                0
            },
        }
    }

    /// The privilege bitset of the session behind `h`.
    pub fn privileges_at(&self, h: usize) -> (r: i32)
        requires
            self.wf(),
            self.live(h as int),
        ensures
            r == self.at(h as int).privileges,
    {
        match &self.slots[h] {
            Some(s) => s.privileges,
            None => {
                proof {
                    assert(false);
                }
                0
            },
        }
    }

    /// The value a live slot holds.
    fn session_snapshot(&self, h: usize) -> (r: PlayerData)
        requires
            self.wf(),
            self.live(h as int),
        ensures
            r.describes(self.at(h as int)),
    {
        match &self.slots[h] {
            Some(s) => PlayerData::from_session(s),
            None => {
                proof {
                    assert(false);
                }
                PlayerData::from_session(&self.slots[0].as_ref().unwrap())
            },
        }
    }

    /// Appends one frame to the mailbox of the session behind a live
    /// handle.
    pub(crate) fn enqueue_at(&mut self, h: usize, packet_data: Vec<u8>)
        requires
            old(self).wf(),
            old(self).live(h as int),
        ensures
            final(self).wf(),
            final(self).token_map@ == old(self).token_map@,
            final(self).id_map@ == old(self).id_map@,
            final(self).name_map@ == old(self).name_map@,
            final(self).player_count == old(self).player_count,
            final(self).slots@.len() == old(self).slots@.len(),
            forall|g: int|
                0 <= g < old(self).slots@.len() && g != h ==> final(self).slots@[g] == old(self).slots@[g],
            final(self).live(h as int),
            final(self).at(h as int) == (Session {
                mailbox: final(self).at(h as int).mailbox,
                ..old(self).at(h as int)
            }),
            final(self).at(h as int).mailbox_view() == old(self).at(h as int).mailbox_view().push(
                packet_data@,
            ),
    {
        let mut taken: Option<Session> = None;
        self.slots.set_and_swap(h, &mut taken);
        match taken {
            Some(mut s) => {
                s.enqueue(packet_data);
                self.slots.set(h, Some(s));
                proof {
                    PlayerSessions::lemma_wf_slot_update(*old(self), *final(self), h as int);
                }
            },
            None => {
                proof {
                    assert(false);
                }
            },
        }
    }

    /// Appends one frame to the mailbox of the session holding `token`;
    /// reports whether such a session was live.
    pub fn enqueue_by_token(&mut self, token: &String, packet_data: Vec<u8>) -> (r: bool)
        requires
            old(self).wf(),
        ensures
            final(self).wf(),
            r == old(self).has_token(token@),
            !r ==> *final(self) == *old(self),
            r ==> ({
                let hh = old(self).handle_of_token(token@);
                &&& final(self).token_map@ == old(self).token_map@
                &&& final(self).id_map@ == old(self).id_map@
                &&& final(self).name_map@ == old(self).name_map@
                &&& final(self).player_count == old(self).player_count
                &&& final(self).slots@.len() == old(self).slots@.len()
                &&& forall|g: int|
                    0 <= g < old(self).slots@.len() && g != hh ==> final(self).slots@[g] == old(self).slots@[g]
                &&& final(self).live(hh)
                &&& final(self).at(hh) == (Session {
                    mailbox: final(self).at(hh).mailbox,
                    ..old(self).at(hh)
                })
                &&& final(self).at(hh).mailbox_view() == old(self).at(hh).mailbox_view().push(
                    packet_data@,
                )
            }),
    {
        let k = match self.find_token_entry(token) {
            Some(k) => k,
            None => {
                return false;
            },
        };
        let h = self.token_map[k].1;
        proof {
            assert(self.token_entry_ok(k as int));
        }
        self.enqueue_at(h, packet_data);
        true
    }

    /// Appends one frame to the mailbox of the session with id `user_id`;
    /// reports whether such a session was live.
    pub fn enqueue_by_id(&mut self, user_id: i32, packet_data: Vec<u8>) -> (r: bool)
        requires
            old(self).wf(),
        ensures
            final(self).wf(),
            r == old(self).has_id(user_id),
            !r ==> *final(self) == *old(self),
            r ==> ({
                let hh = old(self).handle_of_id(user_id);
                &&& final(self).token_map@ == old(self).token_map@
                &&& final(self).id_map@ == old(self).id_map@
                &&& final(self).name_map@ == old(self).name_map@
                &&& final(self).player_count == old(self).player_count
                &&& final(self).slots@.len() == old(self).slots@.len()
                &&& forall|g: int|
                    0 <= g < old(self).slots@.len() && g != hh ==> final(self).slots@[g] == old(self).slots@[g]
                &&& final(self).live(hh)
                &&& final(self).at(hh) == (Session {
                    mailbox: final(self).at(hh).mailbox,
                    ..old(self).at(hh)
                })
                &&& final(self).at(hh).mailbox_view() == old(self).at(hh).mailbox_view().push(
                    packet_data@,
                )
            }),
    {
        let k = match self.find_id_entry(user_id) {
            Some(k) => k,
            None => {
                return false;
            },
        };
        let h = self.id_map[k].1;
        proof {
            assert(self.id_entry_ok(k as int));
        }
        self.enqueue_at(h, packet_data);
        true
    }

    /// A session holding `token` is connected.
    pub fn token_is_exists(&self, token: &String) -> (r: bool)
        requires
            self.wf(),
        ensures
            r == self.has_token(token@),
    {
        self.find_token_entry(token).is_some()
    }

    /// A session with id `id` is connected.
    pub fn id_is_exists(&self, id: i32) -> (r: bool)
        requires
            self.wf(),
        ensures
            r == self.has_id(id),
    {
        self.find_id_entry(id).is_some()
    }

    /// A session with id `user_id` is connected.
    pub fn user_is_logined(&self, user_id: i32) -> (r: bool)
        requires
            self.wf(),
        ensures
            r == self.has_id(user_id),
    {
        self.id_is_exists(user_id)
    }

    /// The handle of the session holding `token`.
    pub fn get_player_by_token(&self, token: &String) -> (r: Option<usize>)
        requires
            self.wf(),
        ensures
            match r {
                Some(h) => {
                    &&& self.has_token(token@)
                    &&& h == self.handle_of_token(token@)
                    &&& self.live(h as int)
                },
                None => !self.has_token(token@),
            },
    {
        match self.find_token_entry(token) {
            Some(k) => {
                proof {
                    assert(self.token_entry_ok(k as int));
                }
                Some(self.token_map[k].1)
            },
            None => None,
        }
    }

    /// The handle of the session with id `id`.
    pub fn get_player_by_id(&self, id: i32) -> (r: Option<usize>)
        requires
            self.wf(),
        ensures
            match r {
                Some(h) => {
                    &&& self.has_id(id)
                    &&& h == self.handle_of_id(id)
                    &&& self.live(h as int)
                },
                None => !self.has_id(id),
            },
    {
        match self.find_id_entry(id) {
            Some(k) => {
                proof {
                    assert(self.id_entry_ok(k as int));
                }
                Some(self.id_map[k].1)
            },
            None => None,
        }
    }

    /// The handle of the session connected under `username` (primary or
    /// alternate name).
    pub fn get_player_by_name(&self, username: &String) -> (r: Option<usize>)
        requires
            self.wf(),
        ensures
            match r {
                Some(h) => {
                    &&& self.has_name(username@)
                    &&& h == self.handle_of_name(username@)
                    &&& self.live(h as int)
                },
                None => !self.has_name(username@),
            },
    {
        let n = self.name_map.len();
        let mut k: usize = 0;
        while k < n
            invariant
                n == self.name_map@.len(),
                0 <= k <= n,
                self.wf(),
                forall|m: int| 0 <= m < k ==> (#[trigger] self.name_map@[m]).0@ != username@,
            decreases n - k,
        {
            let entry = &self.name_map[k];
            if entry.0 == *username {
                proof {
                    assert(self.name_entry_ok(k as int));
                    let k2 = choose|m: int|
                        0 <= m < self.name_map@.len() && (#[trigger] self.name_map@[m]).0@
                            == username@;
                    if k as int != k2 {
                        assert(self.name_map@[k as int].0@ != self.name_map@[k2].0@);
                    }
                }
                return Some(self.name_map[k].1);
            }
            k = k + 1;
        }
        None
    }

    /// A read-only snapshot of the session holding `token`.
    pub fn get_player_data(&self, token: &String) -> (r: Option<PlayerData>)
        requires
            self.wf(),
        ensures
            match r {
                Some(d) => {
                    &&& self.has_token(token@)
                    &&& d.describes(self.session_of_token(token@))
                },
                None => !self.has_token(token@),
            },
    {
        match self.get_player_by_token(token) {
            Some(h) => {
                proof {
                    self.lemma_token_lookup_live(token@);
                }
                Some(self.session_snapshot(h))
            },
            None => None,
        }
    }

    /// Hands the session holding `token` to `handler` and stores what
    /// comes back; the handler must keep the session's identity keys and
    /// well-formedness.  Reports whether the handler succeeded.
    pub fn handle_player<F: FnOnce(Session) -> (Session, Option<()>)>(
        &mut self,
        token: &String,
        handler: F,
    ) -> (r: Result<(), ()>)
        requires
            old(self).wf(),
            forall|s: Session| s.wf() ==> call_requires(handler, (s,)),
            forall|s: Session, out: (Session, Option<()>)|
                s.wf() && call_ensures(handler, (s,), out) ==> ({
                    &&& out.0.wf()
                    &&& out.0.token@ == s.token@
                    &&& out.0.id == s.id
                    &&& out.0.name@ == s.name@
                    &&& out.0.u_name == s.u_name
                }),
        ensures
            final(self).wf(),
            !old(self).has_token(token@) ==> r is Err && *final(self) == *old(self),
            old(self).has_token(token@) ==> ({
                let h = old(self).handle_of_token(token@);
                exists|out: (Session, Option<()>)|
                    {
                        &&& #[trigger] call_ensures(handler, (old(self).at(h),), out)
                        &&& PlayerSessions::only_session_changed(*old(self), *final(self), h)
                        &&& final(self).at(h) == out.0
                        &&& (r is Ok <==> out.1 is Some)
                    }
            }),
    {
        let k = match self.find_token_entry(token) {
            Some(k) => k,
            None => {
                return Err(());
            },
        };
        let h = self.token_map[k].1;
        proof {
            assert(self.token_entry_ok(k as int));
        }
        let mut taken: Option<Session> = None;
        self.slots.set_and_swap(h, &mut taken);
        match taken {
            Some(s) => {
                let ghost s0 = s;
                let out = handler(s);
                let ghost out_g = out;
                let verdict = match out.1 {
                    Some(_) => Ok(()),
                    None => Err(()),
                };
                self.slots.set(h, Some(out.0));
                proof {
                    PlayerSessions::lemma_wf_slot_update(*old(self), *final(self), h as int);
                    assert(call_ensures(handler, (old(self).at(h as int),), out_g));
                    assert(final(self).at(h as int) == out_g.0);
                }
                verdict
            },
            None => {
                proof {
                    assert(false);
                }
                Err(())
            },
        }
    }

    /// Like [`Self::handle_player`], but returns a snapshot of the session
    /// as the handler left it.
    pub fn handle_player_get<F: FnOnce(Session) -> (Session, Option<()>)>(
        &mut self,
        token: &String,
        handler: F,
    ) -> (r: Result<PlayerData, ()>)
        requires
            old(self).wf(),
            forall|s: Session| s.wf() ==> call_requires(handler, (s,)),
            forall|s: Session, out: (Session, Option<()>)|
                s.wf() && call_ensures(handler, (s,), out) ==> ({
                    &&& out.0.wf()
                    &&& out.0.token@ == s.token@
                    &&& out.0.id == s.id
                    &&& out.0.name@ == s.name@
                    &&& out.0.u_name == s.u_name
                }),
        ensures
            final(self).wf(),
            !old(self).has_token(token@) ==> r is Err && *final(self) == *old(self),
            old(self).has_token(token@) ==> ({
                let h = old(self).handle_of_token(token@);
                exists|out: (Session, Option<()>)|
                    {
                        &&& #[trigger] call_ensures(handler, (old(self).at(h),), out)
                        &&& PlayerSessions::only_session_changed(*old(self), *final(self), h)
                        &&& final(self).at(h) == out.0
                        &&& (out.1 is Some ==> r is Ok && r->Ok_0.describes(out.0))
                        &&& (out.1 is None ==> r is Err)
                    }
            }),
    {
        let k = match self.find_token_entry(token) {
            Some(k) => k,
            None => {
                return Err(());
            },
        };
        let h = self.token_map[k].1;
        proof {
            assert(self.token_entry_ok(k as int));
        }
        let mut taken: Option<Session> = None;
        self.slots.set_and_swap(h, &mut taken);
        match taken {
            Some(s) => {
                let ghost s0 = s;
                let out = handler(s);
                let ghost out_g = out;
                let verdict = match out.1 {
                    Some(_) => Ok(PlayerData::from_session(&out.0)),
                    None => Err(()),
                };
                self.slots.set(h, Some(out.0));
                proof {
                    PlayerSessions::lemma_wf_slot_update(*old(self), *final(self), h as int);
                    assert(call_ensures(handler, (old(self).at(h as int),), out_g));
                    assert(final(self).at(h as int) == out_g.0);
                }
                verdict
            },
            None => {
                proof {
                    assert(false);
                }
                Err(())
            },
        }
    }

    /// Resolves an id to its token, releases that lookup, and then logs the
    /// session out by token, so that no lookup is held across the nested
    /// call.  A non-existent id returns nothing, mutates no index, and
    /// broadcasts nothing.
    pub fn logout_with_id(&mut self, user_id: i32) -> (r: Option<Session>)
        requires
            old(self).wf(),
        ensures
            final(self).wf(),
            !old(self).has_id(user_id) ==> r is None && *final(self) == *old(self),
            old(self).has_id(user_id) ==> ({
                let s = old(self).session_of_id(user_id);
                &&& r == Some(s)
                &&& final(self).live_count() == old(self).live_count() - 1
                &&& !final(self).has_token(s.token@)
                &&& !final(self).has_id(user_id)
                &&& !final(self).has_name(s.name@)
                &&& forall|t: Seq<char>|
                    t != s.token@ ==> (final(self).has_token(t) <==> old(self).has_token(t))
                &&& forall|i: i32| i != user_id ==> (final(self).has_id(i) <==> old(self).has_id(i))
                &&& forall|t: Seq<char>|
                    t != s.token@ && old(self).has_token(t) ==> ({
                        let s0 = old(self).session_of_token(t);
                        let s1 = final(self).session_of_token(t);
                        &&& s1 == (Session { mailbox: s1.mailbox, ..s0 })
                        &&& s1.mailbox_view() == s0.mailbox_view().push(spec_user_logout(s.id))
                    })
            }),
    {
        let h = match self.get_player_by_id(user_id) {
            Some(h) => h,
            None => {
                return None;
            },
        };
        let token = match &self.slots[h] {
            Some(s) => s.token.clone(),
            None => {
                proof {
                    assert(false);
                }
                String::new()
            },
        };
        proof {
            self.lemma_id_lookup_live(user_id);
            self.lemma_token_functional(h as int);
            assert(self.session_of_token(token@) == self.session_of_id(user_id));
        }
        self.logout(&token)
    }

    /// The tokens of every session whose last activity is older than the
    /// timeout, measured from `now`; the periodic reaper logs them out.
    pub fn deactive_token_list_at(&self, session_timeout: i64, now: i64) -> (r: Vec<String>)
        requires
            self.wf(),
        ensures
            r@.map_values(|s: String| s@) == spec_stale_tokens(*self, session_timeout, now),
    {
        let n = self.token_map.len();
        let mut out: Vec<String> = Vec::new();
        let mut k: usize = 0;
        proof {
            assert(out@.map_values(|s: String| s@) =~= spec_stale_prefix(
                *self,
                session_timeout,
                now,
                0,
            ));
        }
        while k < n
            invariant
                n == self.token_map@.len(),
                0 <= k <= n,
                self.wf(),
                out@.map_values(|s: String| s@) == spec_stale_prefix(
                    *self,
                    session_timeout,
                    now,
                    k as int,
                ),
            decreases n - k,
    {
            proof {
                assert(self.token_entry_ok(k as int));
            }
            let h = self.token_map[k].1;
            let last = match &self.slots[h] {
                Some(s) => s.last_active_time,
                None => {
                    proof {
                        assert(false);
                    }
                    0
                },
            };
            if (now as i128) - (last as i128) > (session_timeout as i128) {
                let t = self.token_map[k].0.clone();
                out.push(t);
                proof {
                    assert(out@.map_values(|s: String| s@) =~= spec_stale_prefix(
                        *self,
                        session_timeout,
                        now,
                        k as int + 1,
                    ));
                }
            } else {
                proof {
                    assert(out@.map_values(|s: String| s@) =~= spec_stale_prefix(
                        *self,
                        session_timeout,
                        now,
                        k as int + 1,
                    ));
                }
            }
            k = k + 1;
        }
        out
    }

    /// Reads the clock once and returns the tokens stale at that reading.
    pub fn deactive_token_list(&self, session_timeout: i64) -> (r: Vec<String>)
        requires
            self.wf(),
        ensures
            exists|now: i64|
                r@.map_values(|s: String| s@) == spec_stale_tokens(*self, session_timeout, now),
    {
        let now = unix_now();
        self.deactive_token_list_at(session_timeout, now)
    }
}

/// The stale tokens among the first `k` token entries, in index order: a
/// token is stale when its session's last activity lies more than the
/// timeout before `now`.
pub open spec fn spec_stale_prefix(d: PlayerSessions, session_timeout: i64, now: i64, k: int) -> Seq<
    Seq<char>,
>
    decreases k,
{
    if k <= 0 {
        Seq::empty()
    } else {
        let prefix = spec_stale_prefix(d, session_timeout, now, k - 1);
        if now - d.at(d.token_map@[k - 1].1 as int).last_active_time > session_timeout {
            prefix.push(d.token_map@[k - 1].0@)
        } else {
            prefix
        }
    }
}

/// All stale tokens, in token-index order.
pub open spec fn spec_stale_tokens(d: PlayerSessions, session_timeout: i64, now: i64) -> Seq<
    Seq<char>,
> {
    spec_stale_prefix(d, session_timeout, now, d.token_map@.len() as int)
}

} // verus!
