//! One connected player's session: identity, status block, per-mode stats
//! cache, friends, channel memberships, and the outbound mailbox.

use vstd::prelude::*;

use crate::codec::{
    le_bytes_u16, le_bytes_u32, le_bytes_u64, spec_frame, spec_string_field, new_frame,
    write_string_field, write_u16_le, write_u32_le, write_u64_le,
};
use crate::modes::{Action, PresenceFilter, spec_action_to_u8, spec_valid_mode};
use crate::packets::{
    MAX_STRING_FIELD_BYTES, PACKET_USER_PRESENCE, PACKET_USER_STATS, lemma_string_field_len,
};

verus! {

/// A row of account data as the storage collaborator hands it over.
#[derive(Clone, Debug)]
pub struct PlayerBase {
    /// Player's unique id.
    pub id: i32,
    /// Player's unique name.
    pub name: String,
    /// Player's unique alternate (unicode) name.
    pub u_name: Option<String>,
    /// Hashed password credential, verified outside this crate.
    pub password: String,
    pub privileges: i32,
    pub country: String,
}

/// Per-mode play statistics, cached to avoid a storage round-trip on mode
/// switches.  The accuracy field carries the raw bit pattern of the
/// client-facing fraction; this crate never interprets it.
#[derive(Clone, Copy, Debug, PartialEq, Eq, Structural)]
pub struct Stats {
    pub rank: i32,
    pub pp: i16,
    pub accuracy_bits: u32,
    pub ranked_score: i64,
    pub total_score: i64,
    pub playcount: i32,
}

impl Stats {
    pub fn zero() -> (r: Stats)
        ensures
            r == (Stats {
                rank: 0i32,
                pp: 0i16,
                accuracy_bits: 0u32,
                ranked_score: 0i64,
                total_score: 0i64,
                playcount: 0i32,
            }),
    {
        Stats { rank: 0, pp: 0, accuracy_bits: 0, ranked_score: 0, total_score: 0, playcount: 0 }
    }
}

/// The status block, replaced atomically as one unit.
pub struct SessionStatus {
    pub action: Action,
    pub info: String,
    pub beatmap_md5: String,
    pub beatmap_id: i32,
    pub play_mods: u32,
    pub game_mode: u8,
}

/// Network and geographic metadata, resolved outside this crate.  The
/// longitude and latitude fields carry raw bit patterns of the
/// client-facing coordinates; this crate never interprets them.
#[derive(Clone, Copy, Debug, PartialEq, Eq, Structural)]
pub struct GeoData {
    pub country_code: u8,
    pub utc_offset: u8,
    pub longitude_bits: u32,
    pub latitude_bits: u32,
}

/// First stats record in the cache under mode `m`.
pub open spec fn spec_cache_lookup(c: Seq<(u8, Stats)>, m: u8) -> Option<Stats>
    decreases c.len(),
{
    if c.len() == 0 {
        None
    } else if c[0].0 == m {
        Some(c[0].1)
    } else {
        spec_cache_lookup(c.drop_first(), m)
    }
}

/// One connected player.
pub struct Session {
    pub id: i32,
    pub name: String,
    pub u_name: Option<String>,
    pub token: String,
    pub privileges: i32,
    pub bancho_privileges: u8,
    pub status: SessionStatus,
    pub stats: Stats,
    pub stats_cache: Vec<(u8, Stats)>,
    /// Sorted unique friend ids.
    pub friends: Vec<i32>,
    /// Names of the channels this session is a member of.
    pub channels: Vec<String>,
    /// FIFO outbound mailbox of pre-encoded frames.
    pub mailbox: Vec<Vec<u8>>,
    pub login_time: i64,
    pub last_active_time: i64,
    pub presence_filter: PresenceFilter,
    pub away_message: String,
    pub in_lobby: bool,
    pub only_friend_pm_allowed: bool,
    /// Whether presence packets written for this viewer show alternate names.
    pub display_u_name: bool,
    pub ip: String,
    pub geo: GeoData,
}

impl Session {
    /// The mailbox as a sequence of byte strings.
    pub open spec fn mailbox_view(self) -> Seq<Seq<u8>> {
        self.mailbox@.map_values(|v: Vec<u8>| v@)
    }

    /// Internal consistency: friends sorted and unique, channel names
    /// unique, a valid derived mode, and re-encoded strings short enough to
    /// frame.
    pub open spec fn wf(self) -> bool {
        &&& forall|i: int, j: int|
            0 <= i < j < self.friends@.len() ==> self.friends@[i] < self.friends@[j]
        &&& forall|i: int, j: int|
            0 <= i < j < self.channels@.len() ==> self.channels@[i]@ != self.channels@[j]@
        &&& spec_valid_mode(self.status.game_mode)
        &&& vstd::utf8::encode_utf8(self.name@).len() <= MAX_STRING_FIELD_BYTES
        &&& (self.u_name matches Some(u) ==> u@ != self.name@
            && vstd::utf8::encode_utf8(u@).len() <= MAX_STRING_FIELD_BYTES)
        &&& vstd::utf8::encode_utf8(self.status.info@).len() <= MAX_STRING_FIELD_BYTES
        &&& vstd::utf8::encode_utf8(self.status.beatmap_md5@).len() <= MAX_STRING_FIELD_BYTES
    }

    /// Builds a fresh session from an account row; it joins no channels,
    /// owes no packets, and starts idle.
    pub fn from_base(
        base: PlayerBase,
        token: String,
        bancho_privileges: u8,
        friends: Vec<i32>,
        login_time: i64,
        display_u_name: bool,
        ip: String,
        geo: GeoData,
    ) -> (r: Session)
        requires
            forall|i: int, j: int| 0 <= i < j < friends@.len() ==> friends@[i] < friends@[j],
            vstd::utf8::encode_utf8(base.name@).len() <= MAX_STRING_FIELD_BYTES,
            (base.u_name matches Some(u) ==> u@ != base.name@ && vstd::utf8::encode_utf8(u@).len()
                <= MAX_STRING_FIELD_BYTES),
        ensures
            r.wf(),
            r.id == base.id,
            r.name@ == base.name@,
            r.u_name == base.u_name,
            r.token@ == token@,
            r.privileges == base.privileges,
            r.friends@ == friends@,
            r.channels@.len() == 0,
            r.mailbox_view() == Seq::<Seq<u8>>::empty(),
            r.login_time == login_time,
            r.last_active_time == login_time,
    {
        let r = Session {
            id: base.id,
            name: base.name,
            u_name: base.u_name,
            token,
            privileges: base.privileges,
            bancho_privileges,
            status: SessionStatus {
                action: Action::Idle,
                info: String::new(),
                beatmap_md5: String::new(),
                beatmap_id: 0,
                play_mods: 0,
                game_mode: 0,
            },
            stats: Stats::zero(),
            stats_cache: Vec::new(),
            friends,
            channels: Vec::new(),
            mailbox: Vec::new(),
            login_time,
            last_active_time: login_time,
            presence_filter: PresenceFilter::NoFilter,
            away_message: String::new(),
            in_lobby: false,
            only_friend_pm_allowed: false,
            display_u_name,
            ip,
            geo,
        };
        proof {
            assert(r.mailbox_view() =~= Seq::<Seq<u8>>::empty());
        }
        r
    }

    /// Replaces the whole status block as one unit.
    pub fn update_status(
        &mut self,
        action: Action,
        info: String,
        beatmap_md5: String,
        beatmap_id: i32,
        play_mods: u32,
        game_mode: u8,
    )
        requires
            old(self).wf(),
            spec_valid_mode(game_mode),
            vstd::utf8::encode_utf8(info@).len() <= MAX_STRING_FIELD_BYTES,
            vstd::utf8::encode_utf8(beatmap_md5@).len() <= MAX_STRING_FIELD_BYTES,
        ensures
            final(self).wf(),
            *final(self) == (Session { status: final(self).status, ..*old(self) }),
            final(self).status.action == action,
            final(self).status.info@ == info@,
            final(self).status.beatmap_md5@ == beatmap_md5@,
            final(self).status.beatmap_id == beatmap_id,
            final(self).status.play_mods == play_mods,
            final(self).status.game_mode == game_mode,
    {
        self.status = SessionStatus { action, info, beatmap_md5, beatmap_id, play_mods, game_mode };
    }

    /// Appends one pre-encoded frame to the mailbox.
    pub fn enqueue(&mut self, packet: Vec<u8>)
        ensures
            *final(self) == (Session { mailbox: final(self).mailbox, ..*old(self) }),
            final(self).mailbox_view() == old(self).mailbox_view().push(packet@),
    {
        self.mailbox.push(packet);
        proof {
            assert(final(self).mailbox_view() =~= old(self).mailbox_view().push(packet@));
        }
    }

    /// Removes and returns the oldest mailbox entry, if any.
    pub fn dequeue(&mut self) -> (r: Option<Vec<u8>>)
        ensures
            *final(self) == (Session { mailbox: final(self).mailbox, ..*old(self) }),
            match r {
                Some(p) => {
                    &&& old(self).mailbox_view().len() > 0
                    &&& p@ == old(self).mailbox_view()[0]
                    &&& final(self).mailbox_view() == old(self).mailbox_view().drop_first()
                },
                None => {
                    &&& old(self).mailbox_view().len() == 0
                    &&& *final(self) == *old(self)
                },
            },
    {
        if self.mailbox.len() > 0 {
            let p = self.mailbox.remove(0);
            proof {
                assert(final(self).mailbox_view() =~= old(self).mailbox_view().drop_first());
            }
            Some(p)
        } else {
            None
        }
    }

    /// Refreshes the last-active timestamp.
    pub fn update_active(&mut self, now: i64)
        ensures
            *final(self) == (Session { last_active_time: now, ..*old(self) }),
    {
        self.last_active_time = now;
    }

    /// Adds a friend id, keeping the list sorted and unique; a no-op when
    /// already present.
    pub fn friends_add(&mut self, target: i32) -> (added: bool)
        requires
            old(self).wf(),
        ensures
            final(self).wf(),
            *final(self) == (Session { friends: final(self).friends, ..*old(self) }),
            added <==> !old(self).friends@.contains(target),
            forall|x: i32|
                final(self).friends@.contains(x) <==> (old(self).friends@.contains(x) || x
                    == target),
            !added ==> *final(self) == *old(self),
    {
        let n = self.friends.len();
        let mut i: usize = 0;
        while i < n && self.friends[i] < target
            invariant
                n == self.friends@.len(),
                0 <= i <= n,
                *self == *old(self),
                old(self).wf(),
                forall|k: int| 0 <= k < i ==> self.friends@[k] < target,
            decreases n - i,
        {
            i = i + 1;
        }
        if i < n && self.friends[i] == target {
            proof {
                assert(old(self).friends@.contains(target));
            }
            return false;
        }
        proof {
            assert(forall|k: int| i <= k < n ==> self.friends@[k] > target) by {
                assert(forall|k: int| i < k < n ==> self.friends@[i as int] <= self.friends@[k]);
            }
            assert(!old(self).friends@.contains(target)) by {
                if old(self).friends@.contains(target) {
                    let k = choose|k: int|
                        0 <= k < old(self).friends@.len() && old(self).friends@[k] == target;
                    assert(!(k < i) && !(k >= i));
                }
            }
        }
        self.friends.insert(i, target);
        proof {
            let f0 = old(self).friends@;
            let f1 = final(self).friends@;
            assert(f1 == f0.insert(i as int, target));
            assert(forall|p: int, q: int| 0 <= p < q < f1.len() ==> f1[p] < f1[q]) by {
                assert(forall|k: int| 0 <= k < i ==> f1[k] == f0[k]);
                assert(f1[i as int] == target);
                assert(forall|k: int| i < k < f1.len() ==> f1[k] == f0[k - 1]);
            }
            assert(forall|x: i32| f1.contains(x) <==> (f0.contains(x) || x == target)) by {
                assert(f1[i as int] == target);
                assert(forall|k: int| 0 <= k < i ==> f1[k] == f0[k]);
                assert(forall|k: int| i < k < f1.len() ==> f1[k] == f0[k - 1]);
                assert(forall|x: i32| f0.contains(x) ==> f1.contains(x)) by {
                    assert(forall|k: int|
                        0 <= k < f0.len() ==> f1[if k < i {
                            k
                        } else {
                            k + 1
                        }] == f0[k]);
                }
            }
        }
        true
    }

    /// Removes a friend id by ordered search; a no-op when absent.
    pub fn friends_remove(&mut self, target: i32) -> (removed: bool)
        requires
            old(self).wf(),
        ensures
            final(self).wf(),
            *final(self) == (Session { friends: final(self).friends, ..*old(self) }),
            removed <==> old(self).friends@.contains(target),
            forall|x: i32|
                final(self).friends@.contains(x) <==> (old(self).friends@.contains(x) && x
                    != target),
            !removed ==> *final(self) == *old(self),
    {
        let n = self.friends.len();
        let mut i: usize = 0;
        while i < n && self.friends[i] < target
            invariant
                n == self.friends@.len(),
                0 <= i <= n,
                *self == *old(self),
                old(self).wf(),
                forall|k: int| 0 <= k < i ==> self.friends@[k] < target,
            decreases n - i,
        {
            i = i + 1;
        }
        proof {
            assert(forall|k: int| i <= k < n && k != i ==> self.friends@[k] > target) by {
                assert(forall|k: int| i < k < n ==> self.friends@[i as int] <= self.friends@[k]);
            }
        }
        if i < n && self.friends[i] == target {
            self.friends.remove(i);
            proof {
                let f0 = old(self).friends@;
                let f1 = final(self).friends@;
                assert(f1 == f0.remove(i as int));
                assert(f0.contains(target));
                assert(forall|p: int, q: int| 0 <= p < q < f1.len() ==> f1[p] < f1[q]) by {
                    assert(forall|k: int| 0 <= k < i ==> f1[k] == f0[k]);
                    assert(forall|k: int| i <= k < f1.len() ==> f1[k] == f0[k + 1]);
                }
                assert(forall|x: i32| f1.contains(x) <==> (f0.contains(x) && x != target)) by {
                    assert(forall|k: int| 0 <= k < i ==> f1[k] == f0[k] && f0[k] < target);
                    assert(forall|k: int|
                        i <= k < f1.len() ==> f1[k] == f0[k + 1] && f0[k + 1] > target);
                    assert(forall|x: i32| f0.contains(x) && x != target ==> f1.contains(x)) by {
                        assert(forall|k: int|
                            0 <= k < f0.len() && k != i ==> f1[if k < i {
                                k
                            } else {
                                k - 1
                            }] == f0[k]);
                    }
                }
            }
            true
        } else {
            proof {
                assert(!old(self).friends@.contains(target)) by {
                    if old(self).friends@.contains(target) {
                        let k = choose|k: int|
                            0 <= k < old(self).friends@.len() && old(self).friends@[k] == target;
                        assert(!(k < i) && !(k >= i));
                    }
                }
            }
            false
        }
    }

    /// This session is a member of channel `n`.
    pub open spec fn in_channels(self, n: Seq<char>) -> bool {
        exists|k: int| 0 <= k < self.channels@.len() && (#[trigger] self.channels@[k])@ == n
    }

    /// Records membership of a channel; a no-op when already recorded.
    pub fn channels_add(&mut self, name: String) -> (added: bool)
        requires
            old(self).wf(),
        ensures
            final(self).wf(),
            *final(self) == (Session { channels: final(self).channels, ..*old(self) }),
            added <==> !old(self).in_channels(name@),
            final(self).in_channels(name@),
            forall|n: Seq<char>|
                final(self).in_channels(n) <==> (old(self).in_channels(n) || n == name@),
            !added ==> *final(self) == *old(self),
    {
        let n = self.channels.len();
        let mut i: usize = 0;
        while i < n
            invariant
                n == self.channels@.len(),
                0 <= i <= n,
                *self == *old(self),
                old(self).wf(),
                forall|k: int| 0 <= k < i ==> (#[trigger] self.channels@[k])@ != name@,
            decreases n - i,
        {
            if self.channels[i] == name {
                return false;
            }
            i = i + 1;
        }
        self.channels.push(name);
        proof {
            let c0 = old(self).channels@;
            let c1 = final(self).channels@;
            assert(c1[c0.len() as int]@ == name@);
            assert(forall|k: int| 0 <= k < c0.len() ==> c1[k] == c0[k]);
            assert forall|m: Seq<char>| old(self).in_channels(m) implies final(self).in_channels(
                m,
            ) by {
                let k = choose|k: int| 0 <= k < c0.len() && (#[trigger] c0[k])@ == m;
                assert(c1[k]@ == m);
            }
        }
        true
    }

    /// Forgets membership of a channel; a no-op when absent.
    pub fn channels_remove(&mut self, name: &String) -> (removed: bool)
        requires
            old(self).wf(),
        ensures
            final(self).wf(),
            *final(self) == (Session { channels: final(self).channels, ..*old(self) }),
            removed <==> old(self).in_channels(name@),
            forall|n: Seq<char>|
                final(self).in_channels(n) <==> (old(self).in_channels(n) && n != name@),
            !removed ==> *final(self) == *old(self),
    {
        let n = self.channels.len();
        let mut i: usize = 0;
        while i < n
            invariant
                n == self.channels@.len(),
                0 <= i <= n,
                *self == *old(self),
                old(self).wf(),
                forall|k: int| 0 <= k < i ==> (#[trigger] self.channels@[k])@ != name@,
            decreases n - i,
        {
            if self.channels[i] == *name {
                self.channels.remove(i);
                proof {
                    let c0 = old(self).channels@;
                    let c1 = final(self).channels@;
                    assert(c1 == c0.remove(i as int));
                    assert(forall|k: int| 0 <= k < i ==> c1[k] == c0[k]);
                    assert(forall|k: int| i <= k < c1.len() ==> c1[k] == c0[k + 1]);
                    assert forall|m: Seq<char>|
                        old(self).in_channels(m) && m != name@ implies final(self).in_channels(
                        m,
                    ) by {
                        let k = choose|k: int| 0 <= k < c0.len() && (#[trigger] c0[k])@ == m;
                        if k < i {
                            assert(c1[k]@ == m);
                        } else {
                            assert(c0[k]@ != name@);
                            assert(k != i);
                            assert(c1[k - 1]@ == m);
                        }
                    }
                    assert forall|m: Seq<char>| final(self).in_channels(m) implies old(self).in_channels(m) && m != name@ by {
                        let k = choose|k: int| 0 <= k < c1.len() && (#[trigger] c1[k])@ == m;
                        if k < i {
                            assert(c0[k]@ == m);
                        } else {
                            assert(c0[k + 1]@ == m);
                            assert(c0[i as int]@ == name@);
                        }
                    }
                }
                return true;
            }
            i = i + 1;
        }
        proof {
            assert(!old(self).in_channels(name@)) by {
                if old(self).in_channels(name@) {
                    let k = choose|k: int|
                        0 <= k < old(self).channels@.len() && (#[trigger] old(self).channels@[k])@ == name@;
                    assert(!(k < n) && !(k >= n));
                }
            }
        }
        false
    }

    /// Loads the cached stats for the current mode, if present.
    pub fn stats_from_cache(&mut self) -> (hit: bool)
        ensures
            *final(self) == (Session { stats: final(self).stats, ..*old(self) }),
            match spec_cache_lookup(old(self).stats_cache@, old(self).status.game_mode) {
                Some(s) => hit && final(self).stats == s,
                None => !hit && *final(self) == *old(self),
            },
    {
        let m = self.status.game_mode;
        let n = self.stats_cache.len();
        let mut i: usize = 0;
        proof {
            assert(self.stats_cache@.skip(0) =~= self.stats_cache@);
        }
        while i < n
            invariant
                n == self.stats_cache@.len(),
                0 <= i <= n,
                *self == *old(self),
                m == self.status.game_mode,
                spec_cache_lookup(self.stats_cache@, m) == spec_cache_lookup(
                    self.stats_cache@.skip(i as int),
                    m,
                ),
            decreases n - i,
        {
            let entry_mode = self.stats_cache[i].0;
            proof {
                assert(self.stats_cache@.skip(i as int)[0] == self.stats_cache@[i as int]);
                assert(self.stats_cache@.skip(i as int).drop_first() =~= self.stats_cache@.skip(
                    i + 1,
                ));
            }
            if entry_mode == m {
                let s = self.stats_cache[i].1;
                self.stats = s;
                return true;
            }
            i = i + 1;
        }
        proof {
            assert(self.stats_cache@.skip(n as int) =~= Seq::<(u8, Stats)>::empty());
        }
        false
    }

    /// Stores stats in the cache under mode `m`, replacing an earlier entry.
    pub fn cache_stats(&mut self, m: u8, s: Stats)
        ensures
            *final(self) == (Session { stats_cache: final(self).stats_cache, ..*old(self) }),
            spec_cache_lookup(final(self).stats_cache@, m) == Some(s),
    {
        let n = self.stats_cache.len();
        let mut i: usize = 0;
        while i < n
            invariant
                n == self.stats_cache@.len(),
                0 <= i <= n,
                *self == *old(self),
                forall|k: int| 0 <= k < i ==> self.stats_cache@[k].0 != m,
            decreases n - i,
        {
            if self.stats_cache[i].0 == m {
                self.stats_cache.set(i, (m, s));
                proof {
                    lemma_cache_lookup_prefix_miss(final(self).stats_cache@, m, i as int, s);
                }
                return ;
            }
            i = i + 1;
        }
        self.stats_cache.push((m, s));
        proof {
            lemma_cache_lookup_prefix_miss(final(self).stats_cache@, m, n as int, s);
        }
    }

    /// The stats-update frame describing this session.
    pub fn stats_packet(&self) -> (r: Vec<u8>)
        requires
            self.wf(),
        ensures
            r@ == spec_stats_packet(*self),
    {
        let mut p: Vec<u8> = Vec::new();
        write_u32_le(&mut p, self.id as u32);
        p.push(self.status.action.to_u8());
        write_string_field(&mut p, self.status.info.as_str());
        write_string_field(&mut p, self.status.beatmap_md5.as_str());
        write_u32_le(&mut p, self.status.play_mods);
        p.push(self.status.game_mode % 4);
        write_u32_le(&mut p, self.status.beatmap_id as u32);
        write_u64_le(&mut p, self.stats.ranked_score as u64);
        write_u32_le(&mut p, self.stats.accuracy_bits);
        write_u32_le(&mut p, self.stats.playcount as u32);
        write_u64_le(&mut p, self.stats.total_score as u64);
        write_u32_le(&mut p, self.stats.rank as u32);
        write_u16_le(&mut p, self.stats.pp as u16);
        proof {
            lemma_string_field_len(self.status.info@);
            lemma_string_field_len(self.status.beatmap_md5@);
            assert(p@ =~= spec_stats_payload(*self));
        }
        new_frame(PACKET_USER_STATS, &p)
    }

    /// The presence frame describing this session, written for a viewer
    /// whose settings say whether alternate names are shown.
    pub fn presence_packet(&self, display_u_name: bool) -> (r: Vec<u8>)
        requires
            self.wf(),
        ensures
            r@ == spec_presence_packet(*self, display_u_name),
    {
        let mut p: Vec<u8> = Vec::new();
        write_u32_le(&mut p, self.id as u32);
        let shown: &String = match &self.u_name {
            Some(u) if display_u_name => u,
            _ => &self.name,
        };
        write_string_field(&mut p, shown.as_str());
        p.push(self.geo.utc_offset);
        p.push(self.geo.country_code);
        p.push(self.bancho_privileges | ((self.status.game_mode % 4) << 5u8));
        write_u32_le(&mut p, self.geo.longitude_bits);
        write_u32_le(&mut p, self.geo.latitude_bits);
        write_u32_le(&mut p, self.stats.rank as u32);
        proof {
            lemma_string_field_len(spec_shown_name(*self, display_u_name));
            assert(p@ =~= spec_presence_payload(*self, display_u_name));
        }
        new_frame(PACKET_USER_PRESENCE, &p)
    }
}

/// The name a presence record shows: the alternate name when the viewer
/// asks for it and one exists, the primary name otherwise.
pub open spec fn spec_shown_name(s: Session, display_u_name: bool) -> Seq<char> {
    if display_u_name && s.u_name is Some {
        s.u_name->Some_0@
    } else {
        s.name@
    }
}

/// Payload of a stats-update frame: identity, the whole status block, and
/// the current per-mode statistics.
pub open spec fn spec_stats_payload(s: Session) -> Seq<u8> {
    le_bytes_u32(s.id as u32) + seq![spec_action_to_u8(s.status.action)] + spec_string_field(
        s.status.info@,
    ) + spec_string_field(s.status.beatmap_md5@) + le_bytes_u32(s.status.play_mods) + seq![
        (s.status.game_mode % 4) as u8,
    ] + le_bytes_u32(s.status.beatmap_id as u32) + le_bytes_u64(s.stats.ranked_score as u64)
        + le_bytes_u32(s.stats.accuracy_bits) + le_bytes_u32(s.stats.playcount as u32)
        + le_bytes_u64(s.stats.total_score as u64) + le_bytes_u32(s.stats.rank as u32)
        + le_bytes_u16(s.stats.pp as u16)
}

/// The complete stats-update frame.
pub open spec fn spec_stats_packet(s: Session) -> Seq<u8> {
    spec_frame(PACKET_USER_STATS, spec_stats_payload(s))
}

/// Payload of a presence frame: identity, shown name, geography, and rank.
pub open spec fn spec_presence_payload(s: Session, display_u_name: bool) -> Seq<u8> {
    le_bytes_u32(s.id as u32) + spec_string_field(spec_shown_name(s, display_u_name)) + seq![
        s.geo.utc_offset,
        s.geo.country_code,
        (s.bancho_privileges | ((s.status.game_mode % 4) << 5u8)) as u8,
    ] + le_bytes_u32(s.geo.longitude_bits) + le_bytes_u32(s.geo.latitude_bits) + le_bytes_u32(
        s.stats.rank as u32,
    )
}

/// The complete presence frame.
pub open spec fn spec_presence_packet(s: Session, display_u_name: bool) -> Seq<u8> {
    spec_frame(PACKET_USER_PRESENCE, spec_presence_payload(s, display_u_name))
}

/// Sessions holding the same membership list are members of the same
/// channels.
pub proof fn lemma_in_channels_eq(a: Session, b: Session)
    requires
        a.channels@ == b.channels@,
    ensures
        forall|n: Seq<char>| a.in_channels(n) <==> b.in_channels(n),
{
    assert forall|n: Seq<char>| a.in_channels(n) implies b.in_channels(n) by {
        let k = choose|k: int| 0 <= k < a.channels@.len() && (#[trigger] a.channels@[k])@ == n;
        assert(b.channels@[k]@ == n);
    }
    assert forall|n: Seq<char>| b.in_channels(n) implies a.in_channels(n) by {
        let k = choose|k: int| 0 <= k < b.channels@.len() && (#[trigger] b.channels@[k])@ == n;
        assert(a.channels@[k]@ == n);
    }
}

/// A read-only snapshot of a session, handed to request handling so that
/// no lookup is held open while frames are dispatched.
pub struct PlayerData {
    pub id: i32,
    pub name: String,
    pub u_name: Option<String>,
    pub token: String,
    pub privileges: i32,
    pub bancho_privileges: u8,
    pub login_time: i64,
    pub last_active_time: i64,
    pub presence_filter: PresenceFilter,
    pub in_lobby: bool,
    pub only_friend_pm_allowed: bool,
    pub display_u_name: bool,
    pub ip: String,
}

impl PlayerData {
    /// The snapshot reports exactly what the session held.
    pub open spec fn describes(self, s: Session) -> bool {
        &&& self.id == s.id
        &&& self.name@ == s.name@
        &&& (match (self.u_name, s.u_name) {
            (Some(a), Some(b)) => a@ == b@,
            (None, None) => true,
            _ => false,
        })
        &&& self.token@ == s.token@
        &&& self.privileges == s.privileges
        &&& self.bancho_privileges == s.bancho_privileges
        &&& self.login_time == s.login_time
        &&& self.last_active_time == s.last_active_time
        &&& self.presence_filter == s.presence_filter
        &&& self.in_lobby == s.in_lobby
        &&& self.only_friend_pm_allowed == s.only_friend_pm_allowed
        &&& self.display_u_name == s.display_u_name
        &&& self.ip@ == s.ip@
    }

    pub fn from_session(s: &Session) -> (r: PlayerData)
        ensures
            r.describes(*s),
    {
        PlayerData {
            id: s.id,
            name: s.name.clone(),
            u_name: match &s.u_name {
                Some(u) => Some(u.clone()),
                None => None,
            },
            token: s.token.clone(),
            privileges: s.privileges,
            bancho_privileges: s.bancho_privileges,
            login_time: s.login_time,
            last_active_time: s.last_active_time,
            presence_filter: s.presence_filter,
            in_lobby: s.in_lobby,
            only_friend_pm_allowed: s.only_friend_pm_allowed,
            display_u_name: s.display_u_name,
            ip: s.ip.clone(),
        }
    }
}

/// If every entry before `i` misses mode `m` and entry `i` is `(m, s)`,
/// the cache lookup returns `s`.
proof fn lemma_cache_lookup_prefix_miss(c: Seq<(u8, Stats)>, m: u8, i: int, s: Stats)
    requires
        0 <= i < c.len(),
        forall|k: int| 0 <= k < i ==> c[k].0 != m,
        c[i] == (m, s),
    ensures
        spec_cache_lookup(c, m) == Some(s),
    decreases i,
{
    if i == 0 {
    } else {
        lemma_cache_lookup_prefix_miss(c.drop_first(), m, i - 1, s);
    }
}

} // verus!
