//! Per-packet handlers.  Each takes the frame's payload cursor, a handle
//! to the directory and channel registry, and mutates shared player state,
//! enqueueing outbound frames for later delivery.  A malformed payload or
//! an invalid field aborts only the current handler, prior state untouched;
//! a session reclaimed mid-flight is skipped silently.

use vstd::prelude::*;

use crate::channel::{ChannelList, spec_join_effect, spec_leave_effect};
use crate::directory::PlayerSessions;
use crate::modes::{
    Action, PresenceFilter, spec_action_from_u8, spec_derive_mode, spec_presence_filter_from_i32,
};
use crate::packets::MAX_STRING_FIELD_BYTES;
use crate::reader::{
    PayloadReader, spec_read_i32, spec_read_i32_list, spec_read_message, spec_read_string,
    spec_read_u8, spec_read_u32,
};
use crate::session::{
    PlayerData, Session, spec_cache_lookup, spec_presence_packet, spec_stats_packet,
};

verus! {

/// Context scoped to one frame: the caller's identity snapshot and the
/// frame's payload.
pub struct HandlerContext {
    pub request_ip: String,
    pub token: String,
    pub id: i32,
    pub name: String,
    pub u_name: Option<String>,
    pub data: PlayerData,
    pub payload: Vec<u8>,
    pub now: i64,
    /// Longest away-message kept, in bytes, if the configuration caps it.
    pub max_message_length: Option<u32>,
    /// Words replaced before an away message is stored.
    pub sensitive_words: Vec<String>,
}

/// The player logs out: the session leaves the directory and all its
/// channels, and every remaining session is told.  A logout arriving
/// within a second of login is rejected untouched (a client quirk).
pub fn user_logout(
    ctx: &HandlerContext,
    directory: &mut PlayerSessions,
    channel_list: &mut ChannelList,
) -> (r: Option<()>)
    requires
        old(directory).wf(),
        old(channel_list).wf(),
    ensures
        final(directory).wf(),
        final(channel_list).wf(),
        ctx.now - ctx.data.login_time < 1 ==> r is None && *final(directory) == *old(directory)
            && *final(channel_list) == *old(channel_list),
        ctx.now - ctx.data.login_time >= 1 ==> ({
            &&& r is Some
            &&& (!old(directory).has_token(ctx.token@) ==> *final(directory) == *old(directory)
                && *final(channel_list) == *old(channel_list))
            &&& (old(directory).has_token(ctx.token@) ==> ({
                let s = old(directory).session_of_token(ctx.token@);
                &&& final(directory).live_count() == old(directory).live_count() - 1
                &&& !final(directory).has_token(ctx.token@)
                &&& !final(directory).has_id(s.id)
                &&& forall|t: Seq<char>|
                    t != ctx.token@ && old(directory).has_token(t) ==> ({
                        let s1 = final(directory).session_of_token(t);
                        s1.mailbox_view() == old(directory).session_of_token(
                            t,
                        ).mailbox_view().push(crate::packets::spec_user_logout(s.id))
                    })
                &&& forall|n: Seq<char>|
                    old(channel_list).has_channel(n) && s.in_channels(n) && old(channel_list).channel_of(n).has_member(s.id) && old(channel_list).channel_of(n).auto_close
                        && old(channel_list).channel_of(n).id_map@.len() == 1 ==> !final(channel_list).has_channel(n)
            }))
        }),
{
    if (ctx.now as i128) - (ctx.data.login_time as i128) < 1 {
        return None;
    }
    crate::channel::logout_with_channels(directory, channel_list, &ctx.token);
    Some(())
}

/// The player declares its presence filter; an out-of-range value is
/// rejected untouched.
pub fn receive_updates(ctx: &HandlerContext, directory: &mut PlayerSessions) -> (r: Option<()>)
    requires
        old(directory).wf(),
    ensures
        final(directory).wf(),
        match spec_read_i32(ctx.payload@, 0) {
            None => r is None && *final(directory) == *old(directory),
            Some(p) => match spec_presence_filter_from_i32(p.0) {
                None => r is None && *final(directory) == *old(directory),
                Some(f) => {
                    &&& r is Some
                    &&& (!old(directory).has_token(ctx.token@) ==> *final(directory) == *old(directory))
                    &&& (old(directory).has_token(ctx.token@) ==> ({
                        let h = old(directory).handle_of_token(ctx.token@);
                        &&& PlayerSessions::only_session_changed(
                            *old(directory),
                            *final(directory),
                            h,
                        )
                        &&& final(directory).at(h) == (Session {
                            presence_filter: f,
                            ..old(directory).at(h)
                        })
                    }))
                },
            },
        },
{
    let mut reader = PayloadReader::new(ctx.payload.as_slice());
    let filter_val = match reader.read_i32() {
        Some(v) => v,
        None => {
            return None;
        },
    };
    let filter = match PresenceFilter::from_i32(filter_val) {
        Some(f) => f,
        None => {
            return None;
        },
    };
    match directory.get_player_by_token(&ctx.token) {
        Some(h) => {
            directory.set_presence_filter(h, filter);
        },
        None => (),
    }
    Some(())
}

/// The player asks for its own fresh status: its stats frame is queued to
/// itself.
pub fn request_status_update(ctx: &HandlerContext, directory: &mut PlayerSessions) -> (r: Option<
    (),
>)
    requires
        old(directory).wf(),
    ensures
        final(directory).wf(),
        r is Some,
        !old(directory).has_token(ctx.token@) ==> *final(directory) == *old(directory),
        old(directory).has_token(ctx.token@) ==> ({
            let h = old(directory).handle_of_token(ctx.token@);
            &&& PlayerSessions::only_session_changed(*old(directory), *final(directory), h)
            &&& final(directory).at(h) == (Session {
                mailbox: final(directory).at(h).mailbox,
                ..old(directory).at(h)
            })
            &&& final(directory).at(h).mailbox_view() == old(directory).at(
                h,
            ).mailbox_view().push(spec_stats_packet(old(directory).at(h)))
        }),
{
    match directory.get_player_by_token(&ctx.token) {
        Some(h) => {
            proof {
                directory.lemma_token_lookup_live(ctx.token@);
            }
            let p = directory.stats_packet_at(h);
            directory.enqueue_at(h, p);
        },
        None => (),
    }
    Some(())
}

/// The player enters or leaves the multiplayer lobby.
pub fn lobby_join(ctx: &HandlerContext, directory: &mut PlayerSessions) -> (r: Option<()>)
    requires
        old(directory).wf(),
    ensures
        final(directory).wf(),
        !old(directory).has_token(ctx.token@) ==> r is None && *final(directory) == *old(directory),
        old(directory).has_token(ctx.token@) ==> ({
            let h = old(directory).handle_of_token(ctx.token@);
            &&& r is Some
            &&& PlayerSessions::only_session_changed(*old(directory), *final(directory), h)
            &&& final(directory).at(h) == (Session { in_lobby: true, ..old(directory).at(h) })
        }),
{
    match directory.get_player_by_token(&ctx.token) {
        Some(h) => {
            directory.set_in_lobby(h, true);
            Some(())
        },
        None => None,
    }
}

/// The player leaves the multiplayer lobby.
pub fn lobby_part(ctx: &HandlerContext, directory: &mut PlayerSessions) -> (r: Option<()>)
    requires
        old(directory).wf(),
    ensures
        final(directory).wf(),
        !old(directory).has_token(ctx.token@) ==> r is None && *final(directory) == *old(directory),
        old(directory).has_token(ctx.token@) ==> ({
            let h = old(directory).handle_of_token(ctx.token@);
            &&& r is Some
            &&& PlayerSessions::only_session_changed(*old(directory), *final(directory), h)
            &&& final(directory).at(h) == (Session { in_lobby: false, ..old(directory).at(h) })
        }),
{
    match directory.get_player_by_token(&ctx.token) {
        Some(h) => {
            directory.set_in_lobby(h, false);
            Some(())
        },
        None => None,
    }
}

/// The player blocks or unblocks messages from non-friends; any payload
/// value other than one clears the block.
pub fn toggle_block_non_friend_dms(ctx: &HandlerContext, directory: &mut PlayerSessions) -> (r:
    Option<()>)
    requires
        old(directory).wf(),
    ensures
        final(directory).wf(),
        match spec_read_i32(ctx.payload@, 0) {
            None => r is None && *final(directory) == *old(directory),
            Some(p) => {
                &&& r is Some
                &&& (!old(directory).has_token(ctx.token@) ==> *final(directory) == *old(directory))
                &&& (old(directory).has_token(ctx.token@) ==> ({
                    let h = old(directory).handle_of_token(ctx.token@);
                    &&& PlayerSessions::only_session_changed(*old(directory), *final(directory), h)
                    &&& final(directory).at(h) == (Session {
                        only_friend_pm_allowed: p.0 == 1,
                        ..old(directory).at(h)
                    })
                }))
            },
        },
{
    let mut reader = PayloadReader::new(ctx.payload.as_slice());
    let value = match reader.read_i32() {
        Some(v) => v,
        None => {
            return None;
        },
    };
    match directory.get_player_by_token(&ctx.token) {
        Some(h) => {
            directory.set_block_non_friend_dms(h, value == 1);
        },
        None => (),
    }
    Some(())
}

/// The player adds a friend: rejected for the sentinel id and for players
/// not connected; otherwise delegated to the shared add path.
pub fn add_friend(ctx: &HandlerContext, directory: &mut PlayerSessions) -> (r: Option<()>)
    requires
        old(directory).wf(),
    ensures
        final(directory).wf(),
        match spec_read_i32(ctx.payload@, 0) {
            None => r is None && *final(directory) == *old(directory),
            Some(p) => {
                &&& (p.0 == -1 ==> r is None && *final(directory) == *old(directory))
                &&& (p.0 != -1 && !old(directory).has_id(p.0) ==> r is None && *final(directory)
                    == *old(directory))
                &&& (p.0 != -1 && old(directory).has_id(p.0) ==> r is Some
                    && spec_friend_added_post(*old(directory), *final(directory), ctx.token@, p.0))
            },
        },
{
    let mut reader = PayloadReader::new(ctx.payload.as_slice());
    let target_id = match reader.read_i32() {
        Some(v) => v,
        None => {
            return None;
        },
    };
    if target_id == -1 {
        return None;
    }
    if !directory.id_is_exists(target_id) {
        return None;
    }
    handle_add_friend(target_id, ctx, directory);
    Some(())
}

/// After the add path ran, the caller's friend list holds the target, and
/// nothing else moved.
pub open spec fn spec_friend_added_post(
    pre: PlayerSessions,
    post: PlayerSessions,
    token: Seq<char>,
    target: i32,
) -> bool {
    &&& (!pre.has_token(token) ==> post == pre)
    &&& (pre.has_token(token) ==> ({
        let h = pre.handle_of_token(token);
        &&& PlayerSessions::only_session_changed(pre, post, h)
        &&& post.at(h) == (Session { friends: post.at(h).friends, ..pre.at(h) })
        &&& forall|x: i32|
            post.at(h).friends@.contains(x) <==> (pre.at(h).friends@.contains(x) || x == target)
    }))
}

/// Shared add path: idempotent in-memory insert into the sorted friend
/// list; persistence is the storage collaborator's affair.
pub fn handle_add_friend(target_id: i32, ctx: &HandlerContext, directory: &mut PlayerSessions) -> (
r: Option<()>)
    requires
        old(directory).wf(),
    ensures
        final(directory).wf(),
        spec_friend_added_post(*old(directory), *final(directory), ctx.token@, target_id),
        r is Some <==> (old(directory).has_token(ctx.token@) && !old(directory).session_of_token(
            ctx.token@,
        ).friends@.contains(target_id)),
{
    let h = match directory.get_player_by_token(&ctx.token) {
        Some(h) => h,
        None => {
            return None;
        },
    };
    let added = directory.friends_add_at(h, target_id);
    if added {
        Some(())
    } else {
        None
    }
}

/// The player removes a friend: rejected for the sentinel id and for
/// players not connected; otherwise delegated to the shared remove path.
pub fn remove_friend(ctx: &HandlerContext, directory: &mut PlayerSessions) -> (r: Option<()>)
    requires
        old(directory).wf(),
    ensures
        final(directory).wf(),
        match spec_read_i32(ctx.payload@, 0) {
            None => r is None && *final(directory) == *old(directory),
            Some(p) => {
                &&& (p.0 == -1 ==> r is None && *final(directory) == *old(directory))
                &&& (p.0 != -1 && !old(directory).has_id(p.0) ==> r is None && *final(directory)
                    == *old(directory))
                &&& (p.0 != -1 && old(directory).has_id(p.0) ==> r is Some
                    && spec_friend_removed_post(
                    *old(directory),
                    *final(directory),
                    ctx.token@,
                    p.0,
                ))
            },
        },
{
    let mut reader = PayloadReader::new(ctx.payload.as_slice());
    let target = match reader.read_i32() {
        Some(v) => v,
        None => {
            return None;
        },
    };
    if target == -1 {
        return None;
    }
    if !directory.id_is_exists(target) {
        return None;
    }
    handle_remove_friend(target, ctx, directory);
    Some(())
}

/// After the remove path ran, the caller's friend list no longer holds
/// the target, and nothing else moved.
pub open spec fn spec_friend_removed_post(
    pre: PlayerSessions,
    post: PlayerSessions,
    token: Seq<char>,
    target: i32,
) -> bool {
    &&& (!pre.has_token(token) ==> post == pre)
    &&& (pre.has_token(token) ==> ({
        let h = pre.handle_of_token(token);
        &&& PlayerSessions::only_session_changed(pre, post, h)
        &&& post.at(h) == (Session { friends: post.at(h).friends, ..pre.at(h) })
        &&& forall|x: i32|
            post.at(h).friends@.contains(x) <==> (pre.at(h).friends@.contains(x) && x != target)
    }))
}

/// Shared remove path: ordered search and removal from the sorted friend
/// list, a no-op when absent; persistence is the storage collaborator's
/// affair.
pub fn handle_remove_friend(
    target: i32,
    ctx: &HandlerContext,
    directory: &mut PlayerSessions,
) -> (r: Option<()>)
    requires
        old(directory).wf(),
    ensures
        final(directory).wf(),
        spec_friend_removed_post(*old(directory), *final(directory), ctx.token@, target),
        r is Some <==> (old(directory).has_token(ctx.token@) && old(directory).session_of_token(
            ctx.token@,
        ).friends@.contains(target)),
{
    let h = match directory.get_player_by_token(&ctx.token) {
        Some(h) => h,
        None => {
            return None;
        },
    };
    let removed = directory.friends_remove_at(h, target);
    if removed {
        Some(())
    } else {
        None
    }
}

// ---------------------------------------------------------------------------
// Status change
// ---------------------------------------------------------------------------

/// The fields of a change-action payload, in wire order: action, info,
/// beatmap hash, mods, base mode, beatmap id.
pub open spec fn spec_parse_change_action(p: Seq<u8>) -> Option<
    (u8, Seq<char>, Seq<char>, u32, u8, i32),
> {
    match spec_read_u8(p, 0) {
        Some((a, i1)) => match spec_read_string(p, i1) {
            Some((info, i2)) => match spec_read_string(p, i2) {
                Some((md5, i3)) => match spec_read_u32(p, i3) {
                    Some((mods, i4)) => match spec_read_u8(p, i4) {
                        Some((mode, i5)) => match spec_read_i32(p, i5) {
                            Some((bid, _)) => Some((a, info, md5, mods, mode, bid)),
                            None => None,
                        },
                        None => None,
                    },
                    None => None,
                },
                None => None,
            },
            None => None,
        },
        None => None,
    }
}

/// What a completed status change does: the whole status block is
/// replaced as one unit, the per-mode stats cache answers for the new mode
/// when it can, and every live session is sent the fresh stats frame.
pub open spec fn spec_change_action_effect(
    pre: PlayerSessions,
    post: PlayerSessions,
    token: Seq<char>,
    action: Action,
    info: Seq<char>,
    md5: Seq<char>,
    mods: u32,
    mode: u8,
    bid: i32,
) -> bool {
    let h = pre.handle_of_token(token);
    let s0 = pre.at(h);
    let s1 = post.at(h);
    let packet = spec_stats_packet(s1);
    &&& post.token_map@ == pre.token_map@
    &&& post.id_map@ == pre.id_map@
    &&& post.name_map@ == pre.name_map@
    &&& post.player_count == pre.player_count
    &&& post.slots@.len() == pre.slots@.len()
    &&& post.live(h)
    &&& s1 == (Session { status: s1.status, stats: s1.stats, mailbox: s1.mailbox, ..s0 })
    &&& s1.status.action == action
    &&& s1.status.info@ == info
    &&& s1.status.beatmap_md5@ == md5
    &&& s1.status.play_mods == mods
    &&& s1.status.game_mode == mode
    &&& s1.status.beatmap_id == bid
    &&& s1.stats == (match spec_cache_lookup(s0.stats_cache@, mode) {
        Some(st) => st,
        None => s0.stats,
    })
    &&& s1.mailbox_view() == s0.mailbox_view().push(packet)
    &&& forall|g: int|
        #[trigger] pre.live(g) && g != h ==> post.live(g) && (post.at(g) == (Session {
            mailbox: post.at(g).mailbox,
            ..pre.at(g)
        })) && post.at(g).mailbox_view() == pre.at(g).mailbox_view().push(packet)
    &&& forall|g: int| 0 <= g < pre.slots@.len() && !pre.live(g) ==> post.slots@[g] == pre.slots@[g]
}

/// The player changes what it is doing.  The derived mode must be valid
/// for the mod set, and the status text and beatmap hash must fit the
/// server's field cap ([`MAX_STRING_FIELD_BYTES`], so the rebuilt stats
/// frame always fits its length field), else the handler aborts with
/// prior state untouched; on success the new stats frame is broadcast to
/// every live session.
pub fn change_action(ctx: &HandlerContext, directory: &mut PlayerSessions) -> (r: Option<()>)
    requires
        old(directory).wf(),
    ensures
        final(directory).wf(),
        match spec_parse_change_action(ctx.payload@) {
            None => r is None && *final(directory) == *old(directory),
            Some(t) => match spec_action_from_u8(t.0) {
                None => r is None && *final(directory) == *old(directory),
                Some(action) => match spec_derive_mode(t.4, t.3) {
                    None => r is None && *final(directory) == *old(directory),
                    Some(mode) => {
                        if vstd::utf8::encode_utf8(t.1).len() > MAX_STRING_FIELD_BYTES
                            || vstd::utf8::encode_utf8(t.2).len() > MAX_STRING_FIELD_BYTES {
                            r is None && *final(directory) == *old(directory)
                        } else if !old(directory).has_token(ctx.token@) {
                            r is None && *final(directory) == *old(directory)
                        } else {
                            r is Some && spec_change_action_effect(
                                *old(directory),
                                *final(directory),
                                ctx.token@,
                                action,
                                t.1,
                                t.2,
                                t.3,
                                mode,
                                t.5,
                            )
                        }
                    },
                },
            },
        },
{
    let mut reader = PayloadReader::new(ctx.payload.as_slice());
    let action_u8 = match reader.read_u8() {
        Some(v) => v,
        None => {
            return None;
        },
    };
    let info = match reader.read_string() {
        Some(v) => v,
        None => {
            return None;
        },
    };
    let beatmap_md5 = match reader.read_string() {
        Some(v) => v,
        None => {
            return None;
        },
    };
    let play_mods = match reader.read_u32() {
        Some(v) => v,
        None => {
            return None;
        },
    };
    let mode_u8 = match reader.read_u8() {
        Some(v) => v,
        None => {
            return None;
        },
    };
    let beatmap_id = match reader.read_i32() {
        Some(v) => v,
        None => {
            return None;
        },
    };
    let action = match Action::from_u8(action_u8) {
        Some(a) => a,
        None => {
            return None;
        },
    };
    let game_mode = match crate::modes::derive_game_mode(mode_u8, play_mods) {
        Some(m) => m,
        None => {
            return None;
        },
    };
    if info.as_str().as_bytes().len() > MAX_STRING_FIELD_BYTES || beatmap_md5.as_str().as_bytes().len()
        > MAX_STRING_FIELD_BYTES {
        return None;
    }
    let h = match directory.get_player_by_token(&ctx.token) {
        Some(h) => h,
        None => {
            return None;
        },
    };
    directory.update_status_at(h, action, info, beatmap_md5, beatmap_id, play_mods, game_mode);
    let ghost d1 = *directory;
    directory.refresh_stats_at(h);
    let ghost d2 = *directory;
    let packet = directory.stats_packet_at(h);
    directory.enqueue_all(&packet);
    proof {
        let d0 = *old(directory);
        let d3 = *final(directory);
        let hh = h as int;
        assert(d3.at(hh).status == d2.at(hh).status);
        assert(d3.at(hh).stats == d2.at(hh).stats);
        assert(spec_stats_packet(d3.at(hh)) == spec_stats_packet(d2.at(hh))) by {
            assert(crate::session::spec_stats_payload(d3.at(hh))
                == crate::session::spec_stats_payload(d2.at(hh)));
        }
        assert(d2.at(hh).mailbox_view() == d0.at(hh).mailbox_view()) by {
            assert(d2.at(hh).mailbox@ == d0.at(hh).mailbox@);
        }
        assert forall|g: int| #[trigger] d0.live(g) && g != hh implies d3.live(g) && (d3.at(g)
            == (Session { mailbox: d3.at(g).mailbox, ..d0.at(g) })) && d3.at(g).mailbox_view()
            == d0.at(g).mailbox_view().push(spec_stats_packet(d3.at(hh))) by {
            assert(d1.slots@[g] == d0.slots@[g]);
            assert(d2.slots@[g] == d0.slots@[g]);
            assert(d2.live(g));
            assert(d2.at(g) == d0.at(g));
        }
        assert forall|g: int|
            0 <= g < d0.slots@.len() && !d0.live(g) implies d3.slots@[g] == d0.slots@[g] by {
            assert(d1.slots@[g] == d0.slots@[g]);
            assert(d2.slots@[g] == d0.slots@[g]);
            assert(!d2.live(g));
        }
    }
    Some(())
}

// ---------------------------------------------------------------------------
// Stats and presence requests
// ---------------------------------------------------------------------------

/// The stats frames queued for a request over `ids`, in order: one per
/// requested player that is connected, skipping the requester itself.
pub open spec fn spec_stats_batch(d: PlayerSessions, ids: Seq<i32>, self_id: i32) -> Seq<Seq<u8>>
    decreases ids.len(),
{
    if ids.len() == 0 {
        Seq::empty()
    } else {
        let prefix = spec_stats_batch(d, ids.drop_last(), self_id);
        let id = ids.last();
        if id != self_id && d.has_id(id) {
            prefix.push(spec_stats_packet(d.session_of_id(id)))
        } else {
            prefix
        }
    }
}

/// The presence frames queued for a request over `ids`, in order: one per
/// requested player that is connected, skipping the requester itself.
pub open spec fn spec_presence_batch(
    d: PlayerSessions,
    ids: Seq<i32>,
    self_id: i32,
    display_u_name: bool,
) -> Seq<Seq<u8>>
    decreases ids.len(),
{
    if ids.len() == 0 {
        Seq::empty()
    } else {
        let prefix = spec_presence_batch(d, ids.drop_last(), self_id, display_u_name);
        let id = ids.last();
        if id != self_id && d.has_id(id) {
            prefix.push(spec_presence_packet(d.session_of_id(id), display_u_name))
        } else {
            prefix
        }
    }
}

/// The mailbox of the session behind `h` was extended by `batch`, in
/// order, and nothing else moved.
pub open spec fn spec_batch_enqueued(
    pre: PlayerSessions,
    post: PlayerSessions,
    h: int,
    batch: Seq<Seq<u8>>,
) -> bool {
    &&& PlayerSessions::only_session_changed(pre, post, h)
    &&& post.at(h) == (Session { mailbox: post.at(h).mailbox, ..pre.at(h) })
    &&& post.at(h).mailbox_view() == pre.at(h).mailbox_view() + batch
}

/// Queues the packets of `batch` to the session behind `h`, in order.
fn enqueue_batch(directory: &mut PlayerSessions, h: usize, batch: Vec<Vec<u8>>)
    requires
        old(directory).wf(),
        old(directory).live(h as int),
    ensures
        final(directory).wf(),
        spec_batch_enqueued(
            *old(directory),
            *final(directory),
            h as int,
            batch@.map_values(|v: Vec<u8>| v@),
        ),
{
    let ghost d0 = *old(directory);
    let ghost views = batch@.map_values(|v: Vec<u8>| v@);
    let n = batch.len();
    let mut batch = batch;
    let mut i: usize = 0;
    proof {
        assert(d0.at(h as int).mailbox_view() + views.take(0) =~= d0.at(h as int).mailbox_view());
    }
    while i < n
        invariant
            0 <= i <= n,
            n == views.len(),
            i + batch@.len() == n,
            forall|k: int| 0 <= k < batch@.len() ==> (#[trigger] batch@[k])@ == views[i + k],
            directory.wf(),
            d0.wf(),
            d0.live(h as int),
            PlayerSessions::only_session_changed(d0, *directory, h as int),
            directory.at(h as int) == (Session {
                mailbox: directory.at(h as int).mailbox,
                ..d0.at(h as int)
            }),
            directory.at(h as int).mailbox_view() == d0.at(h as int).mailbox_view() + views.take(
                i as int,
            ),
        decreases n - i,
    {
        let p = batch.remove(0);
        directory.enqueue_at(h, p);
        proof {
            assert(directory.at(h as int).mailbox_view() =~= d0.at(h as int).mailbox_view()
                + views.take(i as int + 1));
        }
        i = i + 1;
    }
    proof {
        assert(views.take(n as int) =~= views);
    }
}

/// The player asks for others' stats: one stats frame per requested
/// connected player is queued to the requester alone, skipping itself.
pub fn stats_request(ctx: &HandlerContext, directory: &mut PlayerSessions) -> (r: Option<()>)
    requires
        old(directory).wf(),
    ensures
        final(directory).wf(),
        match spec_read_i32_list(ctx.payload@, 0) {
            None => r is None && *final(directory) == *old(directory),
            Some(p) => {
                &&& r is Some
                &&& (!old(directory).has_token(ctx.token@) ==> *final(directory) == *old(directory))
                &&& (old(directory).has_token(ctx.token@) ==> spec_batch_enqueued(
                    *old(directory),
                    *final(directory),
                    old(directory).handle_of_token(ctx.token@),
                    spec_stats_batch(*old(directory), p.0, ctx.id),
                ))
            },
        },
{
    let mut reader = PayloadReader::new(ctx.payload.as_slice());
    let id_list = match reader.read_i32_list() {
        Some(v) => v,
        None => {
            return None;
        },
    };
    let h = match directory.get_player_by_token(&ctx.token) {
        Some(h) => h,
        None => {
            return Some(());
        },
    };
    let ghost d0 = *directory;
    let n = id_list.len();
    let mut packets: Vec<Vec<u8>> = Vec::new();
    let mut i: usize = 0;
    proof {
        assert(packets@.map_values(|v: Vec<u8>| v@) =~= spec_stats_batch(
            d0,
            id_list@.take(0),
            ctx.id,
        ));
    }
    while i < n
        invariant
            0 <= i <= n,
            n == id_list@.len(),
            directory.wf(),
            *directory == d0,
            packets@.map_values(|v: Vec<u8>| v@) == spec_stats_batch(
                d0,
                id_list@.take(i as int),
                ctx.id,
            ),
        decreases n - i,
    {
        proof {
            assert(id_list@.take(i as int + 1).drop_last() =~= id_list@.take(i as int));
            assert(id_list@.take(i as int + 1).last() == id_list@[i as int]);
        }
        let target = id_list[i];
        if target != ctx.id {
            match directory.get_player_by_id(target) {
                Some(ht) => {
                    proof {
                        directory.lemma_id_lookup_live(target);
                    }
                    let p = directory.stats_packet_at(ht);
                    packets.push(p);
                    proof {
                        assert(packets@.map_values(|v: Vec<u8>| v@) =~= spec_stats_batch(
                            d0,
                            id_list@.take(i as int + 1),
                            ctx.id,
                        ));
                    }
                },
                None => (),
            }
        }
        i = i + 1;
    }
    proof {
        assert(id_list@.take(n as int) =~= id_list@);
    }
    enqueue_batch(directory, h, packets);
    Some(())
}

/// The player asks for others' presence: one presence frame per requested
/// connected player is queued to the requester alone, skipping itself.
pub fn presence_request(ctx: &HandlerContext, directory: &mut PlayerSessions) -> (r: Option<()>)
    requires
        old(directory).wf(),
    ensures
        final(directory).wf(),
        match spec_read_i32_list(ctx.payload@, 0) {
            None => r is None && *final(directory) == *old(directory),
            Some(p) => {
                &&& r is Some
                &&& (!old(directory).has_token(ctx.token@) ==> *final(directory) == *old(directory))
                &&& (old(directory).has_token(ctx.token@) ==> spec_batch_enqueued(
                    *old(directory),
                    *final(directory),
                    old(directory).handle_of_token(ctx.token@),
                    spec_presence_batch(
                        *old(directory),
                        p.0,
                        ctx.id,
                        old(directory).session_of_token(ctx.token@).display_u_name,
                    ),
                ))
            },
        },
{
    let mut reader = PayloadReader::new(ctx.payload.as_slice());
    let id_list = match reader.read_i32_list() {
        Some(v) => v,
        None => {
            return None;
        },
    };
    let h = match directory.get_player_by_token(&ctx.token) {
        Some(h) => h,
        None => {
            return Some(());
        },
    };
    proof {
        directory.lemma_token_lookup_live(ctx.token@);
    }
    let display = match &directory.slots[h] {
        Some(s) => s.display_u_name,
        None => {
            proof {
                assert(false);
            }
            false
        },
    };
    let ghost d0 = *directory;
    let n = id_list.len();
    let mut packets: Vec<Vec<u8>> = Vec::new();
    let mut i: usize = 0;
    proof {
        assert(packets@.map_values(|v: Vec<u8>| v@) =~= spec_presence_batch(
            d0,
            id_list@.take(0),
            ctx.id,
            display,
        ));
    }
    while i < n
        invariant
            0 <= i <= n,
            n == id_list@.len(),
            directory.wf(),
            *directory == d0,
            packets@.map_values(|v: Vec<u8>| v@) == spec_presence_batch(
                d0,
                id_list@.take(i as int),
                ctx.id,
                display,
            ),
        decreases n - i,
    {
        proof {
            assert(id_list@.take(i as int + 1).drop_last() =~= id_list@.take(i as int));
            assert(id_list@.take(i as int + 1).last() == id_list@[i as int]);
        }
        let target = id_list[i];
        if target != ctx.id {
            match directory.get_player_by_id(target) {
                Some(ht) => {
                    proof {
                        directory.lemma_id_lookup_live(target);
                    }
                    let p = directory.presence_packet_at(ht, display);
                    packets.push(p);
                    proof {
                        assert(packets@.map_values(|v: Vec<u8>| v@) =~= spec_presence_batch(
                            d0,
                            id_list@.take(i as int + 1),
                            ctx.id,
                            display,
                        ));
                    }
                },
                None => (),
            }
        }
        i = i + 1;
    }
    proof {
        assert(id_list@.take(n as int) =~= id_list@);
    }
    enqueue_batch(directory, h, packets);
    Some(())
}

/// The presence frames of the first `k` id-index entries, skipping the
/// requester itself.
pub open spec fn spec_presence_all_batch(
    d: PlayerSessions,
    k: int,
    self_id: i32,
    display_u_name: bool,
) -> Seq<Seq<u8>>
    decreases k,
{
    if k <= 0 {
        Seq::empty()
    } else {
        let prefix = spec_presence_all_batch(d, k - 1, self_id, display_u_name);
        let entry = d.id_map@[k - 1];
        if entry.0 != self_id {
            prefix.push(spec_presence_packet(d.at(entry.1 as int), display_u_name))
        } else {
            prefix
        }
    }
}

/// The player asks for everyone's presence: one presence frame per other
/// connected player is queued to the requester alone.
pub fn presence_request_all(ctx: &HandlerContext, directory: &mut PlayerSessions) -> (r: Option<
    (),
>)
    requires
        old(directory).wf(),
    ensures
        final(directory).wf(),
        r is Some,
        !old(directory).has_token(ctx.token@) ==> *final(directory) == *old(directory),
        old(directory).has_token(ctx.token@) ==> spec_batch_enqueued(
            *old(directory),
            *final(directory),
            old(directory).handle_of_token(ctx.token@),
            spec_presence_all_batch(
                *old(directory),
                old(directory).id_map@.len() as int,
                ctx.id,
                old(directory).session_of_token(ctx.token@).display_u_name,
            ),
        ),
{
    let h = match directory.get_player_by_token(&ctx.token) {
        Some(h) => h,
        None => {
            return Some(());
        },
    };
    proof {
        directory.lemma_token_lookup_live(ctx.token@);
    }
    let display = match &directory.slots[h] {
        Some(s) => s.display_u_name,
        None => {
            proof {
                assert(false);
            }
            false
        },
    };
    let ghost d0 = *directory;
    let n = directory.id_map.len();
    let mut packets: Vec<Vec<u8>> = Vec::new();
    let mut i: usize = 0;
    proof {
        assert(packets@.map_values(|v: Vec<u8>| v@) =~= spec_presence_all_batch(
            d0,
            0,
            ctx.id,
            display,
        ));
    }
    while i < n
        invariant
            0 <= i <= n,
            n == directory.id_map@.len(),
            directory.wf(),
            *directory == d0,
            packets@.map_values(|v: Vec<u8>| v@) == spec_presence_all_batch(
                d0,
                i as int,
                ctx.id,
                display,
            ),
        decreases n - i,
    {
        let entry_id = directory.id_map[i].0;
        let entry_h = directory.id_map[i].1;
        proof {
            assert(directory.id_entry_ok(i as int));
        }
        if entry_id != ctx.id {
            let p = directory.presence_packet_at(entry_h, display);
            packets.push(p);
            proof {
                assert(packets@.map_values(|v: Vec<u8>| v@) =~= spec_presence_all_batch(
                    d0,
                    i as int + 1,
                    ctx.id,
                    display,
                ));
            }
        }
        i = i + 1;
    }
    enqueue_batch(directory, h, packets);
    Some(())
}

// ---------------------------------------------------------------------------
// Channels
// ---------------------------------------------------------------------------

/// The player joins a chat channel by name.  The highlight pseudo-channel
/// and unknown names are skipped silently; membership changes are
/// broadcast only for persistent channels.
pub fn channel_join(
    ctx: &HandlerContext,
    directory: &mut PlayerSessions,
    channel_list: &mut ChannelList,
) -> (r: Option<()>)
    requires
        old(directory).wf(),
        old(channel_list).wf(),
    ensures
        final(directory).wf(),
        final(channel_list).wf(),
        match spec_read_string(ctx.payload@, 0) {
            None => r is None && *final(directory) == *old(directory) && *final(channel_list)
                == *old(channel_list),
            Some(p) => {
                let name = p.0;
                if name == "#highlight"@ {
                    r is Some && *final(directory) == *old(directory) && *final(channel_list)
                        == *old(channel_list)
                } else if !old(channel_list).has_channel(name) {
                    r is Some && *final(directory) == *old(directory) && *final(channel_list)
                        == *old(channel_list)
                } else if !old(directory).has_token(ctx.token@) {
                    r is None && *final(directory) == *old(directory) && *final(channel_list)
                        == *old(channel_list)
                } else {
                    let ki = old(channel_list).channel_index(name);
                    let h = old(directory).handle_of_token(ctx.token@);
                    let c = old(channel_list).channels@[ki];
                    &&& r is Some
                    &&& (!crate::channel::spec_can_read(old(directory).at(h).privileges, c.read_priv)
                        ==> *final(directory) == *old(directory) && *final(channel_list) == *old(channel_list))
                    &&& (crate::channel::spec_can_read(old(directory).at(h).privileges, c.read_priv)
                        ==> spec_join_effect(
                        *old(channel_list),
                        *final(channel_list),
                        *old(directory),
                        *final(directory),
                        ki,
                        h,
                        !c.auto_close,
                    ))
                }
            },
        },
{
    let mut reader = PayloadReader::new(ctx.payload.as_slice());
    let channel_name = match reader.read_string() {
        Some(v) => v,
        None => {
            return None;
        },
    };
    let highlight = String::from_str("#highlight");
    if channel_name == highlight {
        return Some(());
    }
    let k = match channel_list.find_channel(&channel_name) {
        Some(k) => k,
        None => {
            return Some(());
        },
    };
    let h = match directory.get_player_by_token(&ctx.token) {
        Some(h) => h,
        None => {
            return None;
        },
    };
    proof {
        directory.lemma_token_lookup_live(ctx.token@);
    }
    let notify = !channel_list.channels[k].auto_close;
    channel_list.join_player(&channel_name, directory, h, notify);
    Some(())
}

/// The player leaves a chat channel by name; unknown names are skipped
/// silently, and membership changes are broadcast only for persistent
/// channels.
pub fn channel_part(
    ctx: &HandlerContext,
    directory: &mut PlayerSessions,
    channel_list: &mut ChannelList,
) -> (r: Option<()>)
    requires
        old(directory).wf(),
        old(channel_list).wf(),
    ensures
        final(directory).wf(),
        final(channel_list).wf(),
        match spec_read_string(ctx.payload@, 0) {
            None => r is None && *final(directory) == *old(directory) && *final(channel_list)
                == *old(channel_list),
            Some(p) => {
                let name = p.0;
                if !old(channel_list).has_channel(name) {
                    r is Some && *final(directory) == *old(directory) && *final(channel_list)
                        == *old(channel_list)
                } else {
                    let ki = old(channel_list).channel_index(name);
                    let c = old(channel_list).channels@[ki];
                    &&& r is Some
                    &&& (!c.has_member(ctx.id) ==> *final(directory) == *old(directory) && *final(channel_list) == *old(channel_list))
                    &&& (c.has_member(ctx.id) ==> spec_leave_effect(
                        *old(channel_list),
                        *final(channel_list),
                        *old(directory),
                        *final(directory),
                        ki,
                        ctx.id,
                        !c.auto_close,
                    ))
                }
            },
        },
{
    let mut reader = PayloadReader::new(ctx.payload.as_slice());
    let channel_name = match reader.read_string() {
        Some(v) => v,
        None => {
            return None;
        },
    };
    let k = match channel_list.find_channel(&channel_name) {
        Some(k) => k,
        None => {
            return Some(());
        },
    };
    let notify = !channel_list.channels[k].auto_close;
    channel_list.leave(&channel_name, directory, ctx.id, notify);
    Some(())
}

// ---------------------------------------------------------------------------
// Away message
// ---------------------------------------------------------------------------

/// What `str::replace` returns; the result depends on the arguments
/// alone.
pub uninterp spec fn spec_replaced(s: Seq<char>, from: Seq<char>, to: Seq<char>) -> Seq<char>;

/// Relies on `str::replace` to substitute every occurrence of a sensitive
/// word.
#[verifier::external_body]
fn replace_all(s: &str, from: &str, to: &str) -> (r: String)
    ensures
        r@ == spec_replaced(s@, from@, to@),
{
    s.replace(from, to)
}

/// The largest index at most `max` that falls on a character boundary of
/// `bytes`.
pub open spec fn spec_boundary_at_most(bytes: Seq<u8>, max: int) -> int
    decreases max,
{
    if max <= 0 {
        0
    } else if vstd::utf8::is_char_boundary(bytes, max) {
        max
    } else {
        spec_boundary_at_most(bytes, max - 1)
    }
}

/// The message content kept: cut at the last character boundary within
/// the configured byte limit, when one is configured and exceeded.
pub open spec fn spec_truncated_message(content: Seq<char>, max_len: Option<u32>) -> Seq<char> {
    match max_len {
        Some(m) => {
            let bytes = vstd::utf8::encode_utf8(content);
            if bytes.len() > m {
                vstd::utf8::decode_utf8(bytes.subrange(0, spec_boundary_at_most(bytes, m as int)))
            } else {
                content
            }
        },
        None => content,
    }
}

/// The message content after every configured sensitive word was
/// replaced, in configuration order.
pub open spec fn spec_censored(content: Seq<char>, words: Seq<Seq<char>>) -> Seq<char>
    decreases words.len(),
{
    if words.len() == 0 {
        content
    } else {
        spec_censored(spec_replaced(content, words[0], "**"@), words.drop_first())
    }
}

/// The player sets an away message: the content is cut to the configured
/// limit, cleansed of sensitive words, and stored on the session.
pub fn set_away_message(ctx: &HandlerContext, directory: &mut PlayerSessions) -> (r: Option<()>)
    requires
        old(directory).wf(),
    ensures
        final(directory).wf(),
        match spec_read_message(ctx.payload@, 0) {
            None => r is None && *final(directory) == *old(directory),
            Some(m) => {
                let stored = spec_censored(
                    spec_truncated_message(m.0.1, ctx.max_message_length),
                    ctx.sensitive_words@.map_values(|w: String| w@),
                );
                &&& r is Some
                &&& (!old(directory).has_token(ctx.token@) ==> *final(directory) == *old(directory))
                &&& (old(directory).has_token(ctx.token@) ==> ({
                    let h = old(directory).handle_of_token(ctx.token@);
                    &&& PlayerSessions::only_session_changed(*old(directory), *final(directory), h)
                    &&& final(directory).at(h) == (Session {
                        away_message: final(directory).at(h).away_message,
                        ..old(directory).at(h)
                    })
                    &&& final(directory).at(h).away_message@ == stored
                }))
            },
        },
{
    let mut reader = PayloadReader::new(ctx.payload.as_slice());
    let message = match reader.read_message() {
        Some(m) => m,
        None => {
            return None;
        },
    };
    let mut content = message.content;
    let ghost raw = content@;
    match ctx.max_message_length {
        Some(m) => {
            let maxb = m as usize;
            if content.as_str().as_bytes().len() > maxb {
                let ghost bytes = vstd::utf8::encode_utf8(raw);
                let mut b: usize = maxb;
                while !content.as_str().is_char_boundary(b)
                    invariant
                        0 <= b <= maxb,
                        content@ == raw,
                        spec_boundary_at_most(bytes, maxb as int) == spec_boundary_at_most(
                            bytes,
                            b as int,
                        ),
                        bytes == vstd::utf8::encode_utf8(raw),
                    decreases b,
                {
                    proof {
                        vstd::utf8::encode_utf8_valid_utf8(raw);
                        if b == 0 {
                            assert(vstd::utf8::is_char_boundary(bytes, 0));
                        }
                    }
                    b = b - 1;
                }
                proof {
                    assert(spec_boundary_at_most(bytes, b as int) == b as int);
                }
                let pieces = content.as_str().split_at(b);
                let kept = pieces.0;
                proof {
                    vstd::utf8::encode_utf8_valid_utf8(raw);
                    vstd::utf8::encode_utf8_decode_utf8(kept@);
                }
                content = kept.to_owned();
            }
        },
        None => (),
    }
    let ghost truncated = spec_truncated_message(raw, ctx.max_message_length);
    proof {
        assert(content@ == truncated);
    }
    let ghost word_views = ctx.sensitive_words@.map_values(|w: String| w@);
    let n = ctx.sensitive_words.len();
    let mut i: usize = 0;
    proof {
        assert(word_views.skip(0) =~= word_views);
    }
    while i < n
        invariant
            0 <= i <= n,
            n == word_views.len(),
            word_views == ctx.sensitive_words@.map_values(|w: String| w@),
            spec_censored(truncated, word_views) == spec_censored(
                content@,
                word_views.skip(i as int),
            ),
        decreases n - i,
    {
        proof {
            assert(word_views.skip(i as int)[0] == word_views[i as int]);
            assert(word_views.skip(i as int).drop_first() =~= word_views.skip(i as int + 1));
        }
        let replaced = replace_all(content.as_str(), ctx.sensitive_words[i].as_str(), "**");
        content = replaced;
        i = i + 1;
    }
    proof {
        assert(word_views.skip(n as int) =~= Seq::<Seq<char>>::empty());
        assert(spec_censored(content@, word_views.skip(n as int)) == content@);
    }
    match directory.get_player_by_token(&ctx.token) {
        Some(h) => {
            directory.set_away_message(h, content);
        },
        None => (),
    }
    Some(())
}

} // verus!
