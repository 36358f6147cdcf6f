//! Chat channels: named rooms with privilege-gated membership.  Persistent
//! channels are seeded once at startup from configuration rows; auto-close
//! channels vanish when their last member leaves.

use vstd::prelude::*;

use crate::directory::PlayerSessions;
use crate::packets::{
    MAX_STRING_FIELD_BYTES, channel_info, channel_join_success, spec_channel_info,
    spec_channel_join_success,
};
use crate::session::Session;

verus! {

/// A session may read (enter) a channel when it holds every bit of the
/// channel's read-privilege mask.
pub open spec fn spec_can_read(privileges: i32, read_priv: i32) -> bool {
    privileges & read_priv == read_priv
}

/// What a successful join changes: the channel under index `ki` gains the
/// member behind handle `h`, that session records the membership and is
/// acknowledged, and, when `notify` is set, every live session is sent the
/// updated channel information.  Nothing else moves.
pub open spec fn spec_join_effect(
    pre_cl: ChannelList,
    post_cl: ChannelList,
    pre_d: PlayerSessions,
    post_d: PlayerSessions,
    ki: int,
    h: int,
    notify: bool,
) -> bool {
    let c = pre_cl.channels@[ki];
    let member = pre_d.at(h);
    let c1 = post_cl.channels@[ki];
    let ack = spec_channel_join_success(c.name@);
    let info = spec_channel_info(c.name@, c.title@, c1.spec_member_count_u16());
    &&& post_cl.channels@.len() == pre_cl.channels@.len()
    &&& forall|k: int|
        0 <= k < pre_cl.channels@.len() && k != ki ==> post_cl.channels@[k] == pre_cl.channels@[k]
    &&& c1 == (Channel { id_map: c1.id_map, ..c })
    &&& forall|x: i32| c1.has_member(x) <==> (c.has_member(x) || x == member.id)
    &&& post_d.token_map@ == pre_d.token_map@
    &&& post_d.id_map@ == pre_d.id_map@
    &&& post_d.name_map@ == pre_d.name_map@
    &&& post_d.player_count == pre_d.player_count
    &&& post_d.slots@.len() == pre_d.slots@.len()
    &&& post_d.live(h)
    &&& post_d.at(h) == (Session {
        channels: post_d.at(h).channels,
        mailbox: post_d.at(h).mailbox,
        ..member
    })
    &&& forall|n: Seq<char>| post_d.at(h).in_channels(n) <==> (member.in_channels(n) || n == c.name@)
    &&& post_d.at(h).mailbox_view() == (if notify {
        member.mailbox_view().push(ack).push(info)
    } else {
        member.mailbox_view().push(ack)
    })
    &&& (!notify ==> forall|g: int|
        0 <= g < pre_d.slots@.len() && g != h ==> post_d.slots@[g] == pre_d.slots@[g])
    &&& (notify ==> forall|g: int|
        0 <= g < pre_d.slots@.len() && !pre_d.live(g) ==> post_d.slots@[g] == pre_d.slots@[g])
    &&& (notify ==> forall|g: int|
        #[trigger] pre_d.live(g) && g != h ==> post_d.live(g) && (post_d.at(g) == (Session {
            mailbox: post_d.at(g).mailbox,
            ..pre_d.at(g)
        })) && post_d.at(g).mailbox_view() == pre_d.at(g).mailbox_view().push(info))
}

/// What a completed leave changes: the channel under index `ki` loses
/// member `id` (or, emptied and auto-close, leaves the registry), the
/// departing session's own record drops the name when it is still
/// connected, and, when `notify` is set and the channel survives, every
/// live session is sent the updated channel information.
pub open spec fn spec_leave_effect(
    pre_cl: ChannelList,
    post_cl: ChannelList,
    pre_d: PlayerSessions,
    post_d: PlayerSessions,
    ki: int,
    id: i32,
    notify: bool,
) -> bool {
    let c = pre_cl.channels@[ki];
    let dropped = c.auto_close && c.id_map@.len() == 1;
    &&& (dropped ==> post_cl.channels@ == pre_cl.channels@.remove(ki))
    &&& (!dropped ==> ({
        let c1 = post_cl.channels@[ki];
        &&& post_cl.channels@.len() == pre_cl.channels@.len()
        &&& forall|k: int|
            0 <= k < pre_cl.channels@.len() && k != ki ==> post_cl.channels@[k]
                == pre_cl.channels@[k]
        &&& c1 == (Channel { id_map: c1.id_map, ..c })
        &&& forall|x: i32| c1.has_member(x) <==> (c.has_member(x) && x != id)
    }))
    &&& post_d.token_map@ == pre_d.token_map@
    &&& post_d.id_map@ == pre_d.id_map@
    &&& post_d.name_map@ == pre_d.name_map@
    &&& post_d.player_count == pre_d.player_count
    &&& post_d.slots@.len() == pre_d.slots@.len()
    &&& ({
        let hs = pre_d.handle_of_id(id);
        let info = spec_channel_info(
            c.name@,
            c.title@,
            post_cl.channels@[ki].spec_member_count_u16(),
        );
        let send = notify && !dropped;
        &&& (pre_d.has_id(id) ==> ({
            let member = pre_d.at(hs);
            &&& post_d.live(hs)
            &&& post_d.at(hs) == (Session {
                channels: post_d.at(hs).channels,
                mailbox: post_d.at(hs).mailbox,
                ..member
            })
            &&& forall|n: Seq<char>|
                post_d.at(hs).in_channels(n) <==> (member.in_channels(n) && n != c.name@)
            &&& post_d.at(hs).mailbox_view() == (if send {
                member.mailbox_view().push(info)
            } else {
                member.mailbox_view()
            })
        }))
        &&& (send ==> forall|g: int|
            #[trigger] pre_d.live(g) && !(pre_d.has_id(id) && g == hs) ==> post_d.live(g) && (
            post_d.at(g) == (Session { mailbox: post_d.at(g).mailbox, ..pre_d.at(g) }))
                && post_d.at(g).mailbox_view() == pre_d.at(g).mailbox_view().push(info))
        &&& (send ==> forall|g: int|
            0 <= g < pre_d.slots@.len() && !pre_d.live(g) ==> post_d.slots@[g] == pre_d.slots@[g])
        &&& (!send ==> forall|g: int|
            0 <= g < pre_d.slots@.len() && !(pre_d.has_id(id) && g == hs) ==> post_d.slots@[g]
                == pre_d.slots@[g])
    })
}

/// A channel row as configuration hands it over.
pub struct ChannelBase {
    pub name: String,
    pub title: String,
    pub read_priv: i32,
    pub write_priv: i32,
    pub auto_join: bool,
}

/// One chat room.
pub struct Channel {
    /// Unique name key.
    pub name: String,
    pub title: String,
    pub read_priv: i32,
    pub write_priv: i32,
    /// Joined automatically at login.
    pub auto_join: bool,
    /// Ephemeral: removed from the registry when its last member leaves.
    pub auto_close: bool,
    /// Member session ids, unique.
    pub id_map: Vec<i32>,
}

impl Channel {
    pub open spec fn wf(self) -> bool {
        &&& forall|i: int, j: int|
            0 <= i < j < self.id_map@.len() ==> self.id_map@[i] != self.id_map@[j]
        &&& vstd::utf8::encode_utf8(self.name@).len() <= MAX_STRING_FIELD_BYTES
        &&& vstd::utf8::encode_utf8(self.title@).len() <= MAX_STRING_FIELD_BYTES
    }

    pub open spec fn has_member(self, id: i32) -> bool {
        self.id_map@.contains(id)
    }

    /// The member count as the wire reports it, saturating at the field's
    /// ceiling.
    pub open spec fn spec_member_count_u16(self) -> u16 {
        if self.id_map@.len() > u16::MAX {
            u16::MAX
        } else {
            self.id_map@.len() as u16
        }
    }

    /// Builds a persistent channel from a configuration row, with no
    /// members yet.
    pub fn from_base(base: ChannelBase) -> (r: Channel)
        requires
            vstd::utf8::encode_utf8(base.name@).len() <= MAX_STRING_FIELD_BYTES,
            vstd::utf8::encode_utf8(base.title@).len() <= MAX_STRING_FIELD_BYTES,
        ensures
            r.wf(),
            r.name@ == base.name@,
            r.title@ == base.title@,
            r.read_priv == base.read_priv,
            r.write_priv == base.write_priv,
            r.auto_join == base.auto_join,
            !r.auto_close,
            r.id_map@.len() == 0,
    {
        Channel {
            name: base.name,
            title: base.title,
            read_priv: base.read_priv,
            write_priv: base.write_priv,
            auto_join: base.auto_join,
            auto_close: false,
            id_map: Vec::new(),
        }
    }

    /// Creates an empty auto-close channel, made on first join.
    pub fn new_auto_close(name: String, title: String) -> (r: Channel)
        requires
            vstd::utf8::encode_utf8(name@).len() <= MAX_STRING_FIELD_BYTES,
            vstd::utf8::encode_utf8(title@).len() <= MAX_STRING_FIELD_BYTES,
        ensures
            r.wf(),
            r.name@ == name@,
            r.title@ == title@,
            r.read_priv == 1,
            r.write_priv == 2,
            !r.auto_join,
            r.auto_close,
            r.id_map@.len() == 0,
    {
        Channel {
            name,
            title,
            read_priv: 1,
            write_priv: 2,
            auto_join: false,
            auto_close: true,
            id_map: Vec::new(),
        }
    }

    /// Adds a member id; a no-op when present.
    pub fn add_member(&mut self, id: i32) -> (added: bool)
        requires
            old(self).wf(),
        ensures
            final(self).wf(),
            *final(self) == (Channel { id_map: final(self).id_map, ..*old(self) }),
            added <==> !old(self).has_member(id),
            final(self).has_member(id),
            forall|x: i32| final(self).has_member(x) <==> (old(self).has_member(x) || x == id),
            !added ==> *final(self) == *old(self),
    {
        let n = self.id_map.len();
        let mut i: usize = 0;
        while i < n
            invariant
                n == self.id_map@.len(),
                0 <= i <= n,
                *self == *old(self),
                old(self).wf(),
                forall|k: int| 0 <= k < i ==> self.id_map@[k] != id,
            decreases n - i,
        {
            if self.id_map[i] == id {
                return false;
            }
            i = i + 1;
        }
        proof {
            assert(!old(self).has_member(id)) by {
                if old(self).id_map@.contains(id) {
                    let k = choose|k: int|
                        0 <= k < old(self).id_map@.len() && old(self).id_map@[k] == id;
                    assert(!(k < n) && !(k >= n));
                }
            }
        }
        self.id_map.push(id);
        proof {
            let m0 = old(self).id_map@;
            let m1 = final(self).id_map@;
            assert(m1[m0.len() as int] == id);
            assert(forall|k: int| 0 <= k < m0.len() ==> m1[k] == m0[k]);
            assert forall|x: i32| m0.contains(x) implies m1.contains(x) by {
                let k = choose|k: int| 0 <= k < m0.len() && m0[k] == x;
                assert(m1[k] == x);
            }
        }
        true
    }

    /// Removes a member id; a no-op when absent.
    pub fn remove_member(&mut self, id: i32) -> (removed: bool)
        requires
            old(self).wf(),
        ensures
            final(self).wf(),
            *final(self) == (Channel { id_map: final(self).id_map, ..*old(self) }),
            removed <==> old(self).has_member(id),
            forall|x: i32| final(self).has_member(x) <==> (old(self).has_member(x) && x != id),
            final(self).id_map@.len() == old(self).id_map@.len() - (
            if old(self).has_member(id) {
                1int
            } else {
                0int
            }),
            !removed ==> *final(self) == *old(self),
    {
        let n = self.id_map.len();
        let mut i: usize = 0;
        while i < n
            invariant
                n == self.id_map@.len(),
                0 <= i <= n,
                *self == *old(self),
                old(self).wf(),
                forall|k: int| 0 <= k < i ==> self.id_map@[k] != id,
            decreases n - i,
        {
            if self.id_map[i] == id {
                self.id_map.remove(i);
                proof {
                    let m0 = old(self).id_map@;
                    let m1 = final(self).id_map@;
                    assert(m0.contains(id));
                    assert(forall|k: int| 0 <= k < i ==> m1[k] == m0[k]);
                    assert(forall|k: int| i <= k < m1.len() ==> m1[k] == m0[k + 1]);
                    assert forall|x: i32| m0.contains(x) && x != id implies m1.contains(x) by {
                        let k = choose|k: int| 0 <= k < m0.len() && m0[k] == x;
                        if k < i {
                            assert(m1[k] == x);
                        } else {
                            assert(k != i);
                            assert(m1[k - 1] == x);
                        }
                    }
                    assert forall|x: i32| m1.contains(x) implies m0.contains(x) && x != id by {
                        let k = choose|k: int| 0 <= k < m1.len() && m1[k] == x;
                        if k < i {
                            assert(m0[k] == x);
                        } else {
                            assert(m0[k + 1] == x);
                            assert(m0[i as int] == id);
                        }
                    }
                }
                return true;
            }
            i = i + 1;
        }
        proof {
            assert(!old(self).has_member(id)) by {
                if old(self).id_map@.contains(id) {
                    let k = choose|k: int|
                        0 <= k < old(self).id_map@.len() && old(self).id_map@[k] == id;
                    assert(!(k < n) && !(k >= n));
                }
            }
        }
        false
    }

    /// Whether `id` is on the member list.
    pub fn contains_member(&self, id: i32) -> (r: bool)
        ensures
            r == self.has_member(id),
    {
        let n = self.id_map.len();
        let mut i: usize = 0;
        while i < n
            invariant
                n == self.id_map@.len(),
                0 <= i <= n,
                forall|k: int| 0 <= k < i ==> self.id_map@[k] != id,
            decreases n - i,
        {
            if self.id_map[i] == id {
                return true;
            }
            i = i + 1;
        }
        proof {
            if self.id_map@.contains(id) {
                let k = choose|k: int| 0 <= k < self.id_map@.len() && self.id_map@[k] == id;
                assert(!(k < n) && !(k >= n));
            }
        }
        false
    }

    /// The channel information frame: name, title, member count.
    pub fn info_packet(&self) -> (r: Vec<u8>)
        requires
            self.wf(),
        ensures
            r@ == spec_channel_info(self.name@, self.title@, self.spec_member_count_u16()),
    {
        let count: u16 = if self.id_map.len() > u16::MAX as usize {
            u16::MAX
        } else {
            self.id_map.len() as u16
        };
        channel_info(self.name.as_str(), self.title.as_str(), count)
    }
}

/// The registry of chat channels, keyed by unique name.
pub struct ChannelList {
    pub channels: Vec<Channel>,
}

/// Seeds channel registries from configuration rows.
pub struct ChannelListBuilder {}

impl ChannelList {
    pub open spec fn wf(self) -> bool {
        &&& forall|i: int, j: int|
            0 <= i < j < self.channels@.len() ==> (#[trigger] self.channels@[i]).name@ != (
            #[trigger] self.channels@[j]).name@
        &&& forall|i: int| 0 <= i < self.channels@.len() ==> (#[trigger] self.channels@[i]).wf()
    }

    pub open spec fn has_channel(self, n: Seq<char>) -> bool {
        exists|k: int| 0 <= k < self.channels@.len() && (#[trigger] self.channels@[k]).name@ == n
    }

    pub open spec fn channel_index(self, n: Seq<char>) -> int {
        choose|k: int| 0 <= k < self.channels@.len() && (#[trigger] self.channels@[k]).name@ == n
    }

    pub open spec fn channel_of(self, n: Seq<char>) -> Channel {
        self.channels@[self.channel_index(n)]
    }

    pub fn new() -> (r: ChannelList)
        ensures
            r.wf(),
            r.channels@.len() == 0,
            forall|n: Seq<char>| !r.has_channel(n),
    {
        ChannelList { channels: Vec::new() }
    }

    /// Index of the channel named `name`, if any.
    pub fn find_channel(&self, name: &String) -> (r: Option<usize>)
        requires
            self.wf(),
        ensures
            match r {
                Some(k) => {
                    &&& k < self.channels@.len()
                    &&& self.channels@[k as int].name@ == name@
                    &&& self.has_channel(name@)
                    &&& k == self.channel_index(name@)
                },
                None => !self.has_channel(name@),
            },
    {
        let n = self.channels.len();
        let mut k: usize = 0;
        while k < n
            invariant
                n == self.channels@.len(),
                0 <= k <= n,
                self.wf(),
                forall|m: int| 0 <= m < k ==> (#[trigger] self.channels@[m]).name@ != name@,
            decreases n - k,
        {
            if self.channels[k].name == *name {
                proof {
                    let k2 = choose|m: int|
                        0 <= m < self.channels@.len() && (#[trigger] self.channels@[m]).name@
                            == name@;
                    if k as int != k2 {
                        assert(self.channels@[k as int].name@ != self.channels@[k2].name@);
                    }
                }
                return Some(k);
            }
            k = k + 1;
        }
        None
    }

    /// Adds the session behind `h` to the channel named `channel_name`,
    /// gated silently by the channel's read privileges: on success the
    /// member list and the session's own membership record gain the entry,
    /// the joiner is sent an acknowledgement frame, and, when `notify` is
    /// set, every live session is sent the updated channel information.
    pub fn join_player(
        &mut self,
        channel_name: &String,
        directory: &mut PlayerSessions,
        h: usize,
        notify: bool,
    ) -> (joined: bool)
        requires
            old(self).wf(),
            old(directory).wf(),
            old(directory).live(h as int),
        ensures
            final(self).wf(),
            final(directory).wf(),
            !old(self).has_channel(channel_name@) ==> !joined && *final(self) == *old(self)
                && *final(directory) == *old(directory),
            old(self).has_channel(channel_name@) ==> ({
                let ki = old(self).channel_index(channel_name@);
                let c = old(self).channels@[ki];
                let member = old(directory).at(h as int);
                &&& joined == spec_can_read(member.privileges, c.read_priv)
                &&& !joined ==> *final(self) == *old(self) && *final(directory) == *old(directory)
                &&& joined ==> spec_join_effect(
                    *old(self),
                    *final(self),
                    *old(directory),
                    *final(directory),
                    ki,
                    h as int,
                    notify,
                )
            }),
    {
        let k = match self.find_channel(channel_name) {
            Some(k) => k,
            None => {
                return false;
            },
        };
        let read_priv = self.channels[k].read_priv;
        let privileges = directory.privileges_at(h);
        if privileges & read_priv != read_priv {
            return false;
        }
        let member_id = directory.id_at(h);
        let ghost pre_self = *old(self);
        let c = &mut self.channels[k];
        c.add_member(member_id);
        proof {
            assert forall|i: int, j: int|
                0 <= i < j < self.channels@.len() implies (#[trigger] self.channels@[i]).name@
                != (#[trigger] self.channels@[j]).name@ by {
                assert(pre_self.channels@[i].name@ != pre_self.channels@[j].name@);
            }
            assert forall|i: int| 0 <= i < self.channels@.len() implies (
            #[trigger] self.channels@[i]).wf() by {
                if i != k {
                    assert(self.channels@[i] == pre_self.channels@[i]);
                }
            }
        }
        let name_copy = self.channels[k].name.clone();
        directory.channels_add_at(h, name_copy);
        let ghost d1 = *directory;
        let ack = channel_join_success(self.channels[k].name.as_str());
        directory.enqueue_at(h, ack);
        let ghost d2 = *directory;
        if notify {
            let info_pkt = self.channels[k].info_packet();
            directory.enqueue_all(&info_pkt);
        }
        proof {
            let hh = h as int;
            let d0 = *old(directory);
            let d3 = *final(directory);
            let member = d0.at(hh);
            let c = old(self).channels@[k as int];
            let c1 = final(self).channels@[k as int];
            let info = spec_channel_info(c.name@, c.title@, c1.spec_member_count_u16());
            assert(d2.at(hh).channels@ == d1.at(hh).channels@);
            assert(d3.at(hh).channels@ == d1.at(hh).channels@);
            crate::session::lemma_in_channels_eq(d3.at(hh), d1.at(hh));
            assert(d1.at(hh).mailbox_view() == member.mailbox_view()) by {
                assert(d1.at(hh).mailbox@ == member.mailbox@);
            }
            assert(d2.at(hh).mailbox_view() == member.mailbox_view().push(ack@));
            if notify {
                assert(d3.at(hh).mailbox_view() == member.mailbox_view().push(ack@).push(info));
                assert forall|g: int| #[trigger] d0.live(g) && g != hh implies d3.live(g) && (
                d3.at(g) == (Session { mailbox: d3.at(g).mailbox, ..d0.at(g) })) && d3.at(
                    g,
                ).mailbox_view() == d0.at(g).mailbox_view().push(info) by {
                    assert(d1.slots@[g] == d0.slots@[g]);
                    assert(d2.slots@[g] == d0.slots@[g]);
                    assert(d2.live(g));
                    assert(d2.at(g) == d0.at(g));
                    assert(d3.at(g).mailbox_view() == d2.at(g).mailbox_view().push(info));
                }
                assert forall|g: int|
                    0 <= g < d0.slots@.len() && !d0.live(g) implies d3.slots@[g] == d0.slots@[g] by {
                    assert(d1.slots@[g] == d0.slots@[g]);
                    assert(d2.slots@[g] == d0.slots@[g]);
                    assert(!d2.live(g));
                }
            } else {
                assert forall|g: int|
                    0 <= g < d0.slots@.len() && g != hh implies d3.slots@[g] == d0.slots@[g] by {
                    assert(d1.slots@[g] == d0.slots@[g]);
                    assert(d2.slots@[g] == d0.slots@[g]);
                }
            }
        }
        true
    }

    /// Removes session id `id` from the channel named `channel_name`: the
    /// member list and, when that session is still connected, its own
    /// membership record drop the entry; an auto-close channel left empty
    /// is removed from the registry entirely, while persistent channels
    /// never are.  When `notify` is set and the channel survives, every
    /// live session is sent the updated channel information.
    #[verifier::rlimit(100)]
    #[verifier::spinoff_prover]
    pub fn leave(
        &mut self,
        channel_name: &String,
        directory: &mut PlayerSessions,
        id: i32,
        notify: bool,
    ) -> (left: bool)
        requires
            old(self).wf(),
            old(directory).wf(),
        ensures
            final(self).wf(),
            final(directory).wf(),
            !old(self).has_channel(channel_name@) ==> !left && *final(self) == *old(self)
                && *final(directory) == *old(directory),
            old(self).has_channel(channel_name@) ==> ({
                let ki = old(self).channel_index(channel_name@);
                let c = old(self).channels@[ki];
                &&& left == c.has_member(id)
                &&& !left ==> *final(self) == *old(self) && *final(directory) == *old(directory)
                &&& left ==> spec_leave_effect(
                    *old(self),
                    *final(self),
                    *old(directory),
                    *final(directory),
                    ki,
                    id,
                    notify,
                )
            }),
    {
        let k = match self.find_channel(channel_name) {
            Some(k) => k,
            None => {
                return false;
            },
        };
        let ghost pre_self = *old(self);
        let was_len = self.channels[k].id_map.len();
        let auto_close = self.channels[k].auto_close;
        if !self.channels[k].contains_member(id) {
            return false;
        }
        let c = &mut self.channels[k];
        let was_member = c.remove_member(id);
        proof {
            assert forall|i: int, j: int|
                0 <= i < j < self.channels@.len() implies (#[trigger] self.channels@[i]).name@
                != (#[trigger] self.channels@[j]).name@ by {
                assert(pre_self.channels@[i].name@ != pre_self.channels@[j].name@);
            }
            assert forall|i: int| 0 <= i < self.channels@.len() implies (
            #[trigger] self.channels@[i]).wf() by {
                if i != k {
                    assert(self.channels@[i] == pre_self.channels@[i]);
                }
            }
        }
        let dropped = auto_close && was_len == 1;
        if dropped {
            let ghost mid = self.channels@;
            self.channels.remove(k);
            proof {
                assert(self.channels@ =~= pre_self.channels@.remove(k as int));
                assert forall|i: int, j: int|
                    0 <= i < j < self.channels@.len() implies (#[trigger] self.channels@[i]).name@
                    != (#[trigger] self.channels@[j]).name@ by {
                    let i0: int = if i < k {
                        i
                    } else {
                        i + 1
                    };
                    let j0: int = if j < k {
                        j
                    } else {
                        j + 1
                    };
                    assert(self.channels@[i] == pre_self.channels@[i0]);
                    assert(self.channels@[j] == pre_self.channels@[j0]);
                    assert(pre_self.channels@[i0].name@ != pre_self.channels@[j0].name@);
                }
                assert forall|i: int| 0 <= i < self.channels@.len() implies (
                #[trigger] self.channels@[i]).wf() by {
                    let i0: int = if i < k {
                        i
                    } else {
                        i + 1
                    };
                    assert(self.channels@[i] == pre_self.channels@[i0]);
                }
            }
        }
        // the departing session's own record, when it is still connected
        match directory.get_player_by_id(id) {
            Some(hs) => {
                directory.channels_remove_at(hs, channel_name);
            },
            None => (),
        }
        let ghost d1 = *directory;
        if notify && !dropped {
            let info_pkt = self.channels[k].info_packet();
            directory.enqueue_all(&info_pkt);
        }
        proof {
            let d0 = *old(directory);
            let d2 = *final(directory);
            let c = old(self).channels@[k as int];
            let send = notify && !dropped;
            let info = spec_channel_info(
                c.name@,
                c.title@,
                final(self).channels@[k as int].spec_member_count_u16(),
            );
            if d0.has_id(id) {
                let hs = d0.handle_of_id(id);
                d0.lemma_id_lookup_live(id);
                assert(d1.at(hs).mailbox_view() == d0.at(hs).mailbox_view()) by {
                    assert(d1.at(hs).mailbox@ == d0.at(hs).mailbox@);
                }
                assert(d2.at(hs).channels@ == d1.at(hs).channels@);
                crate::session::lemma_in_channels_eq(d2.at(hs), d1.at(hs));
                if send {
                    assert forall|g: int| #[trigger] d0.live(g) && g != hs implies d2.live(g) && (
                    d2.at(g) == (Session { mailbox: d2.at(g).mailbox, ..d0.at(g) })) && d2.at(
                        g,
                    ).mailbox_view() == d0.at(g).mailbox_view().push(info) by {
                        assert(d1.slots@[g] == d0.slots@[g]);
                        assert(d1.live(g));
                        assert(d1.at(g) == d0.at(g));
                        assert(d2.at(g).mailbox_view() == d1.at(g).mailbox_view().push(info));
                    }
                    assert forall|g: int|
                        0 <= g < d0.slots@.len() && !d0.live(g) implies d2.slots@[g]
                        == d0.slots@[g] by {
                        assert(d1.slots@[g] == d0.slots@[g]);
                        assert(!d1.live(g));
                    }
                } else {
                    assert forall|g: int|
                        0 <= g < d0.slots@.len() && g != hs implies d2.slots@[g]
                        == d0.slots@[g] by {
                        assert(d1.slots@[g] == d0.slots@[g]);
                    }
                }
            } else {
                assert(d1 == d0);
                if send {
                    assert forall|g: int| #[trigger] d0.live(g) implies d2.live(g) && (d2.at(g)
                        == (Session { mailbox: d2.at(g).mailbox, ..d0.at(g) })) && d2.at(
                        g,
                    ).mailbox_view() == d0.at(g).mailbox_view().push(info) by {
                        assert(d1.live(g));
                    }
                }
            }
        }
        true
    }
}

impl ChannelList {
    /// Two channels with one name are one channel.
    pub proof fn lemma_channel_entry_unique(self, k1: int, k2: int)
        requires
            self.wf(),
            0 <= k1 < self.channels@.len(),
            0 <= k2 < self.channels@.len(),
            self.channels@[k1].name@ == self.channels@[k2].name@,
        ensures
            k1 == k2,
    {
    }

    /// A registry entry is found under its own name.
    pub proof fn lemma_channel_functional(self, k: int)
        requires
            self.wf(),
            0 <= k < self.channels@.len(),
        ensures
            self.has_channel(self.channels@[k].name@),
            self.channel_index(self.channels@[k].name@) == k,
            self.channel_of(self.channels@[k].name@) == self.channels@[k],
    {
        let n = self.channels@[k].name@;
        assert(self.has_channel(n));
        let k2 = choose|k2: int|
            0 <= k2 < self.channels@.len() && (#[trigger] self.channels@[k2]).name@ == n;
        self.lemma_channel_entry_unique(k, k2);
    }
}

/// Replacing one channel under its own name leaves every other name's
/// lookup untouched.
proof fn lemma_channel_lookup_after_update(pre: ChannelList, post: ChannelList, ki: int)
    requires
        pre.wf(),
        post.wf(),
        0 <= ki < pre.channels@.len(),
        post.channels@.len() == pre.channels@.len(),
        forall|k: int|
            0 <= k < pre.channels@.len() && k != ki ==> post.channels@[k] == pre.channels@[k],
        post.channels@[ki].name@ == pre.channels@[ki].name@,
    ensures
        post.has_channel(pre.channels@[ki].name@),
        post.channel_of(pre.channels@[ki].name@) == post.channels@[ki],
        forall|n: Seq<char>|
            n != pre.channels@[ki].name@ ==> (post.has_channel(n) <==> pre.has_channel(n)),
        forall|n: Seq<char>|
            n != pre.channels@[ki].name@ && pre.has_channel(n) ==> post.channel_of(n)
                == pre.channel_of(n),
{
    let nm = pre.channels@[ki].name@;
    post.lemma_channel_functional(ki);
    assert forall|n: Seq<char>| n != nm && pre.has_channel(n) implies post.has_channel(n)
        && post.channel_of(n) == pre.channel_of(n) by {
        let k = choose|k: int|
            0 <= k < pre.channels@.len() && (#[trigger] pre.channels@[k]).name@ == n;
        pre.lemma_channel_functional(k);
        assert(k != ki);
        assert(post.channels@[k] == pre.channels@[k]);
        post.lemma_channel_functional(k);
    }
    assert forall|n: Seq<char>| n != nm && post.has_channel(n) implies pre.has_channel(n) by {
        let k = choose|k: int|
            0 <= k < post.channels@.len() && (#[trigger] post.channels@[k]).name@ == n;
        assert(k != ki);
        assert(pre.channels@[k].name@ == n);
    }
}

/// Removing one channel erases its name and leaves every other name's
/// lookup untouched.
proof fn lemma_channel_lookup_after_remove(pre: ChannelList, post: ChannelList, ki: int)
    requires
        pre.wf(),
        post.wf(),
        0 <= ki < pre.channels@.len(),
        post.channels@ == pre.channels@.remove(ki),
    ensures
        !post.has_channel(pre.channels@[ki].name@),
        forall|n: Seq<char>|
            n != pre.channels@[ki].name@ ==> (post.has_channel(n) <==> pre.has_channel(n)),
        forall|n: Seq<char>|
            n != pre.channels@[ki].name@ && pre.has_channel(n) ==> post.channel_of(n)
                == pre.channel_of(n),
{
    let nm = pre.channels@[ki].name@;
    assert forall|k: int| 0 <= k < post.channels@.len() implies (
    #[trigger] post.channels@[k]).name@ != nm by {
        let k0: int = if k < ki {
            k
        } else {
            k + 1
        };
        assert(post.channels@[k] == pre.channels@[k0]);
        assert(pre.channels@[k0].name@ != pre.channels@[ki].name@);
    }
    assert forall|n: Seq<char>| n != nm && pre.has_channel(n) implies post.has_channel(n)
        && post.channel_of(n) == pre.channel_of(n) by {
        let k = choose|k: int|
            0 <= k < pre.channels@.len() && (#[trigger] pre.channels@[k]).name@ == n;
        pre.lemma_channel_functional(k);
        assert(k != ki);
        let k1: int = if k < ki {
            k
        } else {
            k - 1
        };
        assert(post.channels@[k1] == pre.channels@[k]);
        post.lemma_channel_functional(k1);
    }
    assert forall|n: Seq<char>| n != nm && post.has_channel(n) implies pre.has_channel(n) by {
        let k = choose|k: int|
            0 <= k < post.channels@.len() && (#[trigger] post.channels@[k]).name@ == n;
        let k0: int = if k < ki {
            k
        } else {
            k + 1
        };
        assert(pre.channels@[k0].name@ == n);
    }
}

/// Logs the session holding `token` out of the directory and leaves every
/// channel it belonged to: membership is dropped, and an auto-close
/// channel emptied by the departure is removed from the registry.
pub fn logout_with_channels(
    directory: &mut PlayerSessions,
    channel_list: &mut ChannelList,
    token: &String,
) -> (r: Option<Session>)
    requires
        old(directory).wf(),
        old(channel_list).wf(),
    ensures
        final(directory).wf(),
        final(channel_list).wf(),
        !old(directory).has_token(token@) ==> r is None && *final(directory) == *old(directory)
            && *final(channel_list) == *old(channel_list),
        old(directory).has_token(token@) ==> ({
            let s = old(directory).session_of_token(token@);
            &&& r == Some(s)
            &&& final(directory).live_count() == old(directory).live_count() - 1
            &&& !final(directory).has_token(token@)
            &&& !final(directory).has_id(s.id)
            &&& !final(directory).has_name(s.name@)
            &&& forall|t: Seq<char>|
                t != token@ ==> (final(directory).has_token(t) <==> old(directory).has_token(t))
            &&& forall|t: Seq<char>|
                t != token@ && old(directory).has_token(t) ==> ({
                    let s0 = old(directory).session_of_token(t);
                    let s1 = final(directory).session_of_token(t);
                    &&& s1 == (Session { mailbox: s1.mailbox, ..s0 })
                    &&& s1.mailbox_view() == s0.mailbox_view().push(
                        crate::packets::spec_user_logout(s.id),
                    )
                })
            &&& forall|n: Seq<char>|
                final(channel_list).has_channel(n) ==> old(channel_list).has_channel(n)
            &&& forall|n: Seq<char>|
                old(channel_list).has_channel(n) ==> ({
                    let c0 = old(channel_list).channel_of(n);
                    if s.in_channels(n) && c0.has_member(s.id) {
                        if c0.auto_close && c0.id_map@.len() == 1 {
                            !final(channel_list).has_channel(n)
                        } else {
                            &&& final(channel_list).has_channel(n)
                            &&& final(channel_list).channel_of(n) == (Channel {
                                id_map: final(channel_list).channel_of(n).id_map,
                                ..c0
                            })
                            &&& forall|x: i32|
                                final(channel_list).channel_of(n).has_member(x) <==> (
                                c0.has_member(x) && x != s.id)
                        }
                    } else {
                        final(channel_list).has_channel(n) && final(channel_list).channel_of(n)
                            == c0
                    }
                })
        }),
{
    let s = match directory.logout(token) {
        Some(s) => s,
        None => {
            return None;
        },
    };
    let ghost d1 = *directory;
    let ghost cl0 = *old(channel_list);
    proof {
        old(directory).lemma_token_lookup_live(token@);
        assert(s.wf());
    }
    let n = s.channels.len();
    let mut i: usize = 0;
    while i < n
        invariant
            n == s.channels@.len(),
            0 <= i <= n,
            s.wf(),
            !d1.has_id(s.id),
            d1.wf(),
            directory.wf(),
            directory.token_map@ == d1.token_map@,
            directory.id_map@ == d1.id_map@,
            directory.name_map@ == d1.name_map@,
            directory.player_count == d1.player_count,
            directory.slots@ == d1.slots@,
            cl0.wf(),
            channel_list.wf(),
            forall|m: Seq<char>| channel_list.has_channel(m) ==> cl0.has_channel(m),
            forall|m: Seq<char>|
                cl0.has_channel(m) ==> ({
                    let c0 = cl0.channel_of(m);
                    if (exists|j: int| 0 <= j < i && (#[trigger] s.channels@[j])@ == m)
                        && c0.has_member(s.id) {
                        if c0.auto_close && c0.id_map@.len() == 1 {
                            !channel_list.has_channel(m)
                        } else {
                            &&& channel_list.has_channel(m)
                            &&& channel_list.channel_of(m) == (Channel {
                                id_map: channel_list.channel_of(m).id_map,
                                ..c0
                            })
                            &&& forall|x: i32|
                                channel_list.channel_of(m).has_member(x) <==> (c0.has_member(x)
                                    && x != s.id)
                        }
                    } else {
                        channel_list.has_channel(m) && channel_list.channel_of(m) == c0
                    }
                }),
        decreases n - i,
    {
        let ghost cl_pre = *channel_list;
        let ghost d_pre = *directory;
        let ghost nm = s.channels@[i as int]@;
        channel_list.leave(&s.channels[i], directory, s.id, false);
        proof {
            // the directory is already rid of the departing id, so the
            // registry is the only structure the step may touch
            assert(!d_pre.has_id(s.id));
            assert(directory.slots@ =~= d_pre.slots@);
            // unprocessed names keep their lookup; the processed one takes
            // its final form
            if cl_pre.has_channel(nm) {
                let ki = cl_pre.channel_index(nm);
                let c_pre = cl_pre.channels@[ki];
                assert(c_pre == cl_pre.channel_of(nm));
                if c_pre.has_member(s.id) {
                    if c_pre.auto_close && c_pre.id_map@.len() == 1 {
                        lemma_channel_lookup_after_remove(cl_pre, *channel_list, ki);
                    } else {
                        lemma_channel_lookup_after_update(cl_pre, *channel_list, ki);
                    }
                } else {
                    assert(*channel_list == cl_pre);
                }
            } else {
                assert(*channel_list == cl_pre);
            }
            assert forall|m: Seq<char>| cl0.has_channel(m) implies ({
                let c0 = cl0.channel_of(m);
                if (exists|j: int| 0 <= j < i + 1 && (#[trigger] s.channels@[j])@ == m)
                    && c0.has_member(s.id) {
                    if c0.auto_close && c0.id_map@.len() == 1 {
                        !channel_list.has_channel(m)
                    } else {
                        &&& channel_list.has_channel(m)
                        &&& channel_list.channel_of(m) == (Channel {
                            id_map: channel_list.channel_of(m).id_map,
                            ..c0
                        })
                        &&& forall|x: i32|
                            channel_list.channel_of(m).has_member(x) <==> (c0.has_member(x) && x
                                != s.id)
                    }
                } else {
                    channel_list.has_channel(m) && channel_list.channel_of(m) == c0
                }
            }) by {
                if m == nm {
                    assert forall|j: int| 0 <= j < i implies (#[trigger] s.channels@[j])@ != m by {
                        assert(s.channels@[j]@ != s.channels@[i as int]@);
                    }
                    assert((#[trigger] s.channels@[i as int])@ == m);
                } else {
                    if exists|j: int| 0 <= j < i + 1 && (#[trigger] s.channels@[j])@ == m {
                        let j = choose|j: int| 0 <= j < i + 1 && (#[trigger] s.channels@[j])@ == m;
                        assert(j < i);
                    }
                }
            }
        }
        i = i + 1;
    }
    proof {
        assert forall|m: Seq<char>| cl0.has_channel(m) implies ({
            let c0 = cl0.channel_of(m);
            if s.in_channels(m) && c0.has_member(s.id) {
                if c0.auto_close && c0.id_map@.len() == 1 {
                    !channel_list.has_channel(m)
                } else {
                    &&& channel_list.has_channel(m)
                    &&& channel_list.channel_of(m) == (Channel {
                        id_map: channel_list.channel_of(m).id_map,
                        ..c0
                    })
                    &&& forall|x: i32|
                        channel_list.channel_of(m).has_member(x) <==> (c0.has_member(x) && x
                            != s.id)
                }
            } else {
                channel_list.has_channel(m) && channel_list.channel_of(m) == c0
            }
        }) by {
            assert(s.in_channels(m) <==> exists|j: int|
                0 <= j < n && (#[trigger] s.channels@[j])@ == m);
        }
    }
    Some(s)
}

impl ChannelListBuilder {
    /// Builds the persistent channel registry from configuration rows, in
    /// order; seeded once at startup before first use.
    pub fn channels_from_bases(bases: Vec<ChannelBase>) -> (r: ChannelList)
        requires
            forall|i: int, j: int|
                0 <= i < j < bases@.len() ==> (#[trigger] bases@[i]).name@ != (
                #[trigger] bases@[j]).name@,
            forall|i: int|
                0 <= i < bases@.len() ==> vstd::utf8::encode_utf8(
                    (#[trigger] bases@[i]).name@,
                ).len() <= MAX_STRING_FIELD_BYTES && vstd::utf8::encode_utf8(bases@[i].title@).len()
                    <= MAX_STRING_FIELD_BYTES,
        ensures
            r.wf(),
            r.channels@.len() == bases@.len(),
            forall|k: int|
                0 <= k < bases@.len() ==> {
                    let c = #[trigger] r.channels@[k];
                    &&& c.name@ == bases@[k].name@
                    &&& c.title@ == bases@[k].title@
                    &&& c.read_priv == bases@[k].read_priv
                    &&& c.write_priv == bases@[k].write_priv
                    &&& c.auto_join == bases@[k].auto_join
                    &&& !c.auto_close
                    &&& c.id_map@.len() == 0
                },
    {
        let ghost orig = bases@;
        let mut bases = bases;
        let total = bases.len();
        proof {
            assert(orig.len() == total);
        }
        let mut out: Vec<Channel> = Vec::new();
        let mut i: usize = 0;
        while bases.len() > 0
            invariant
                0 <= i,
                orig.len() <= usize::MAX,
                i + bases@.len() == orig.len(),
                bases@ == orig.skip(i as int),
                out@.len() == i,
                forall|i2: int, j2: int|
                    0 <= i2 < j2 < orig.len() ==> (#[trigger] orig[i2]).name@ != (
                    #[trigger] orig[j2]).name@,
                forall|i2: int|
                    0 <= i2 < orig.len() ==> vstd::utf8::encode_utf8(
                        (#[trigger] orig[i2]).name@,
                    ).len() <= MAX_STRING_FIELD_BYTES && vstd::utf8::encode_utf8(
                        orig[i2].title@,
                    ).len() <= MAX_STRING_FIELD_BYTES,
                forall|k: int|
                    0 <= k < i ==> {
                        let c = #[trigger] out@[k];
                        &&& c.wf()
                        &&& c.name@ == orig[k].name@
                        &&& c.title@ == orig[k].title@
                        &&& c.read_priv == orig[k].read_priv
                        &&& c.write_priv == orig[k].write_priv
                        &&& c.auto_join == orig[k].auto_join
                        &&& !c.auto_close
                        &&& c.id_map@.len() == 0
                    },
            decreases bases@.len(),
        {
            let base = bases.remove(0);
            proof {
                assert(base == orig[i as int]);
                assert(bases@ =~= orig.skip(i as int + 1));
            }
            let c = Channel::from_base(base);
            out.push(c);
            i = i + 1;
        }
        let r = ChannelList { channels: out };
        proof {
            assert(r.wf());
        }
        r
    }
}

} // verus!
