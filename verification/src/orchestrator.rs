//! Per-poll orchestration: authenticate the token, iterate the body's
//! frames in arrival order, dispatch each to its handler, then refresh
//! liveness bookkeeping and drain the session's mailbox into the response.
//!
//! The dispatch table is fixed: one arm per recognized packet id, a
//! skipped keep-alive, and a no-op default for unknown ids, so one
//! malformed or aborting frame never halts the rest of the batch.

use vstd::prelude::*;

use crate::channel::{ChannelList, spec_join_effect, spec_leave_effect, spec_can_read};
use crate::directory::PlayerSessions;
use crate::handlers::{
    HandlerContext, add_friend, change_action, channel_join, channel_part, lobby_join, lobby_part,
    presence_request, presence_request_all, receive_updates, remove_friend, request_status_update,
    set_away_message, spec_batch_enqueued, spec_change_action_effect, spec_censored,
    spec_friend_added_post, spec_friend_removed_post, spec_parse_change_action,
    spec_presence_all_batch, spec_presence_batch, spec_stats_batch, spec_truncated_message,
    stats_request, toggle_block_non_friend_dms, user_logout,
};
use crate::modes::{spec_action_from_u8, spec_derive_mode, spec_presence_filter_from_i32};
use crate::codec::{PacketBuilder, le_u32};
use crate::packets::{MAX_STRING_FIELD_BYTES, spec_bancho_restart, spec_notification};
use crate::reader::{
    ClientPacketId, PacketReader, spec_packet_id_of, spec_read_i32, spec_read_i32_list,
    spec_read_message, spec_read_string,
};
use crate::session::{PlayerData, Session, spec_stats_packet};

verus! {

/// What one dispatched frame may have done, by packet id: each arm is the
/// corresponding handler's contract; the keep-alive and unknown ids change
/// nothing.
pub open spec fn spec_dispatch_post(
    pid: ClientPacketId,
    ctx: HandlerContext,
    pre_d: PlayerSessions,
    post_d: PlayerSessions,
    pre_cl: ChannelList,
    post_cl: ChannelList,
    r: Option<()>,
) -> bool {
    match pid {
        ClientPacketId::UserChangeAction => {
            &&& post_cl == pre_cl
            &&& match spec_parse_change_action(ctx.payload@) {
                None => r is None && post_d == pre_d,
                Some(t) => match spec_action_from_u8(t.0) {
                    None => r is None && post_d == pre_d,
                    Some(action) => match spec_derive_mode(t.4, t.3) {
                        None => r is None && post_d == pre_d,
                        Some(mode) => {
                            if vstd::utf8::encode_utf8(t.1).len() > MAX_STRING_FIELD_BYTES
                                || vstd::utf8::encode_utf8(t.2).len() > MAX_STRING_FIELD_BYTES {
                                r is None && post_d == pre_d
                            } else if !pre_d.has_token(ctx.token@) {
                                r is None && post_d == pre_d
                            } else {
                                r is Some && spec_change_action_effect(
                                    pre_d,
                                    post_d,
                                    ctx.token@,
                                    action,
                                    t.1,
                                    t.2,
                                    t.3,
                                    mode,
                                    t.5,
                                )
                            }
                        },
                    },
                },
            }
        },
        ClientPacketId::UserLogout => {
            &&& (ctx.now - ctx.data.login_time < 1 ==> r is None && post_d == pre_d && post_cl
                == pre_cl)
            &&& (ctx.now - ctx.data.login_time >= 1 ==> ({
                &&& r is Some
                &&& (!pre_d.has_token(ctx.token@) ==> post_d == pre_d && post_cl == pre_cl)
                &&& (pre_d.has_token(ctx.token@) ==> ({
                    let s = pre_d.session_of_token(ctx.token@);
                    &&& post_d.live_count() == pre_d.live_count() - 1
                    &&& !post_d.has_token(ctx.token@)
                    &&& !post_d.has_id(s.id)
                }))
            }))
        },
        ClientPacketId::UserRequestStatusUpdate => {
            &&& post_cl == pre_cl
            &&& r is Some
            &&& (!pre_d.has_token(ctx.token@) ==> post_d == pre_d)
            &&& (pre_d.has_token(ctx.token@) ==> ({
                let h = pre_d.handle_of_token(ctx.token@);
                &&& PlayerSessions::only_session_changed(pre_d, post_d, h)
                &&& post_d.at(h).mailbox_view() == pre_d.at(h).mailbox_view().push(
                    spec_stats_packet(pre_d.at(h)),
                )
            }))
        },
        ClientPacketId::Ping => post_d == pre_d && post_cl == pre_cl && r is Some,
        ClientPacketId::UserPartLobby => {
            &&& post_cl == pre_cl
            &&& (!pre_d.has_token(ctx.token@) ==> r is None && post_d == pre_d)
            &&& (pre_d.has_token(ctx.token@) ==> r is Some && ({
                let h = pre_d.handle_of_token(ctx.token@);
                &&& PlayerSessions::only_session_changed(pre_d, post_d, h)
                &&& post_d.at(h) == (Session { in_lobby: false, ..pre_d.at(h) })
            }))
        },
        ClientPacketId::UserJoinLobby => {
            &&& post_cl == pre_cl
            &&& (!pre_d.has_token(ctx.token@) ==> r is None && post_d == pre_d)
            &&& (pre_d.has_token(ctx.token@) ==> r is Some && ({
                let h = pre_d.handle_of_token(ctx.token@);
                &&& PlayerSessions::only_session_changed(pre_d, post_d, h)
                &&& post_d.at(h) == (Session { in_lobby: true, ..pre_d.at(h) })
            }))
        },
        ClientPacketId::UserChannelJoin => match spec_read_string(ctx.payload@, 0) {
            None => r is None && post_d == pre_d && post_cl == pre_cl,
            Some(p) => {
                let name = p.0;
                if name == "#highlight"@ {
                    r is Some && post_d == pre_d && post_cl == pre_cl
                } else if !pre_cl.has_channel(name) {
                    r is Some && post_d == pre_d && post_cl == pre_cl
                } else if !pre_d.has_token(ctx.token@) {
                    r is None && post_d == pre_d && post_cl == pre_cl
                } else {
                    let ki = pre_cl.channel_index(name);
                    let h = pre_d.handle_of_token(ctx.token@);
                    let c = pre_cl.channels@[ki];
                    &&& r is Some
                    &&& (!spec_can_read(pre_d.at(h).privileges, c.read_priv) ==> post_d == pre_d
                        && post_cl == pre_cl)
                    &&& (spec_can_read(pre_d.at(h).privileges, c.read_priv) ==> spec_join_effect(
                        pre_cl,
                        post_cl,
                        pre_d,
                        post_d,
                        ki,
                        h,
                        !c.auto_close,
                    ))
                }
            },
        },
        ClientPacketId::UserFriendAdd => {
            &&& post_cl == pre_cl
            &&& match spec_read_i32(ctx.payload@, 0) {
                None => r is None && post_d == pre_d,
                Some(p) => {
                    &&& (p.0 == -1 ==> r is None && post_d == pre_d)
                    &&& (p.0 != -1 && !pre_d.has_id(p.0) ==> r is None && post_d == pre_d)
                    &&& (p.0 != -1 && pre_d.has_id(p.0) ==> r is Some && spec_friend_added_post(
                        pre_d,
                        post_d,
                        ctx.token@,
                        p.0,
                    ))
                },
            }
        },
        ClientPacketId::UserFriendRemove => {
            &&& post_cl == pre_cl
            &&& match spec_read_i32(ctx.payload@, 0) {
                None => r is None && post_d == pre_d,
                Some(p) => {
                    &&& (p.0 == -1 ==> r is None && post_d == pre_d)
                    &&& (p.0 != -1 && !pre_d.has_id(p.0) ==> r is None && post_d == pre_d)
                    &&& (p.0 != -1 && pre_d.has_id(p.0) ==> r is Some && spec_friend_removed_post(
                        pre_d,
                        post_d,
                        ctx.token@,
                        p.0,
                    ))
                },
            }
        },
        ClientPacketId::UserChannelPart => match spec_read_string(ctx.payload@, 0) {
            None => r is None && post_d == pre_d && post_cl == pre_cl,
            Some(p) => {
                let name = p.0;
                if !pre_cl.has_channel(name) {
                    r is Some && post_d == pre_d && post_cl == pre_cl
                } else {
                    let ki = pre_cl.channel_index(name);
                    let c = pre_cl.channels@[ki];
                    &&& r is Some
                    &&& (!c.has_member(ctx.id) ==> post_d == pre_d && post_cl == pre_cl)
                    &&& (c.has_member(ctx.id) ==> spec_leave_effect(
                        pre_cl,
                        post_cl,
                        pre_d,
                        post_d,
                        ki,
                        ctx.id,
                        !c.auto_close,
                    ))
                }
            },
        },
        ClientPacketId::UserReceiveUpdates => {
            &&& post_cl == pre_cl
            &&& match spec_read_i32(ctx.payload@, 0) {
                None => r is None && post_d == pre_d,
                Some(p) => match spec_presence_filter_from_i32(p.0) {
                    None => r is None && post_d == pre_d,
                    Some(f) => {
                        &&& r is Some
                        &&& (!pre_d.has_token(ctx.token@) ==> post_d == pre_d)
                        &&& (pre_d.has_token(ctx.token@) ==> ({
                            let h = pre_d.handle_of_token(ctx.token@);
                            &&& PlayerSessions::only_session_changed(pre_d, post_d, h)
                            &&& post_d.at(h) == (Session { presence_filter: f, ..pre_d.at(h) })
                        }))
                    },
                },
            }
        },
        ClientPacketId::UserSetAwayMessage => {
            &&& post_cl == pre_cl
            &&& match spec_read_message(ctx.payload@, 0) {
                None => r is None && post_d == pre_d,
                Some(m) => {
                    let stored = spec_censored(
                        spec_truncated_message(m.0.1, ctx.max_message_length),
                        ctx.sensitive_words@.map_values(|w: String| w@),
                    );
                    &&& r is Some
                    &&& (!pre_d.has_token(ctx.token@) ==> post_d == pre_d)
                    &&& (pre_d.has_token(ctx.token@) ==> ({
                        let h = pre_d.handle_of_token(ctx.token@);
                        &&& PlayerSessions::only_session_changed(pre_d, post_d, h)
                        &&& post_d.at(h).away_message@ == stored
                    }))
                },
            }
        },
        ClientPacketId::UserStatsRequest => {
            &&& post_cl == pre_cl
            &&& match spec_read_i32_list(ctx.payload@, 0) {
                None => r is None && post_d == pre_d,
                Some(p) => {
                    &&& r is Some
                    &&& (!pre_d.has_token(ctx.token@) ==> post_d == pre_d)
                    &&& (pre_d.has_token(ctx.token@) ==> spec_batch_enqueued(
                        pre_d,
                        post_d,
                        pre_d.handle_of_token(ctx.token@),
                        spec_stats_batch(pre_d, p.0, ctx.id),
                    ))
                },
            }
        },
        ClientPacketId::UserPresenceRequest => {
            &&& post_cl == pre_cl
            &&& match spec_read_i32_list(ctx.payload@, 0) {
                None => r is None && post_d == pre_d,
                Some(p) => {
                    &&& r is Some
                    &&& (!pre_d.has_token(ctx.token@) ==> post_d == pre_d)
                    &&& (pre_d.has_token(ctx.token@) ==> spec_batch_enqueued(
                        pre_d,
                        post_d,
                        pre_d.handle_of_token(ctx.token@),
                        spec_presence_batch(
                            pre_d,
                            p.0,
                            ctx.id,
                            pre_d.session_of_token(ctx.token@).display_u_name,
                        ),
                    ))
                },
            }
        },
        ClientPacketId::UserPresenceRequestAll => {
            &&& post_cl == pre_cl
            &&& r is Some
            &&& (!pre_d.has_token(ctx.token@) ==> post_d == pre_d)
            &&& (pre_d.has_token(ctx.token@) ==> spec_batch_enqueued(
                pre_d,
                post_d,
                pre_d.handle_of_token(ctx.token@),
                spec_presence_all_batch(
                    pre_d,
                    pre_d.id_map@.len() as int,
                    ctx.id,
                    pre_d.session_of_token(ctx.token@).display_u_name,
                ),
            ))
        },
        ClientPacketId::UserToggleBlockNonFriendDms => {
            &&& post_cl == pre_cl
            &&& match spec_read_i32(ctx.payload@, 0) {
                None => r is None && post_d == pre_d,
                Some(p) => {
                    &&& r is Some
                    &&& (!pre_d.has_token(ctx.token@) ==> post_d == pre_d)
                    &&& (pre_d.has_token(ctx.token@) ==> ({
                        let h = pre_d.handle_of_token(ctx.token@);
                        &&& PlayerSessions::only_session_changed(pre_d, post_d, h)
                        &&& post_d.at(h) == (Session {
                            only_friend_pm_allowed: p.0 == 1,
                            ..pre_d.at(h)
                        })
                    }))
                },
            }
        },
        ClientPacketId::Unknown => post_d == pre_d && post_cl == pre_cl && r is Some,
    }
}

/// Looks the handler for one frame up in the fixed table and runs it;
/// the keep-alive id and unknown ids are skipped without a handler call.
pub fn dispatch_packet(
    packet_id: ClientPacketId,
    ctx: &HandlerContext,
    directory: &mut PlayerSessions,
    channel_list: &mut ChannelList,
) -> (r: Option<()>)
    requires
        old(directory).wf(),
        old(channel_list).wf(),
    ensures
        final(directory).wf(),
        final(channel_list).wf(),
        spec_dispatch_post(
            packet_id,
            *ctx,
            *old(directory),
            *final(directory),
            *old(channel_list),
            *final(channel_list),
            r,
        ),
{
    match packet_id {
        ClientPacketId::UserChangeAction => change_action(ctx, directory),
        ClientPacketId::UserLogout => user_logout(ctx, directory, channel_list),
        ClientPacketId::UserRequestStatusUpdate => request_status_update(ctx, directory),
        ClientPacketId::Ping => Some(()),
        ClientPacketId::UserPartLobby => lobby_part(ctx, directory),
        ClientPacketId::UserJoinLobby => lobby_join(ctx, directory),
        ClientPacketId::UserChannelJoin => channel_join(ctx, directory, channel_list),
        ClientPacketId::UserFriendAdd => add_friend(ctx, directory),
        ClientPacketId::UserFriendRemove => remove_friend(ctx, directory),
        ClientPacketId::UserChannelPart => channel_part(ctx, directory, channel_list),
        ClientPacketId::UserReceiveUpdates => receive_updates(ctx, directory),
        ClientPacketId::UserSetAwayMessage => set_away_message(ctx, directory),
        ClientPacketId::UserStatsRequest => stats_request(ctx, directory),
        ClientPacketId::UserPresenceRequest => presence_request(ctx, directory),
        ClientPacketId::UserPresenceRequestAll => presence_request_all(ctx, directory),
        ClientPacketId::UserToggleBlockNonFriendDms => toggle_block_non_friend_dms(ctx, directory),
        ClientPacketId::Unknown => Some(()),
    }
}

// ---------------------------------------------------------------------------
// The poll body as a spec-level frame stream
// ---------------------------------------------------------------------------

/// The value of the length field of the frame whose header starts at `i`.
pub open spec fn spec_frame_len_at(b: Seq<u8>, i: int) -> int {
    le_u32(b.subrange(i + 3, i + 7)) as int
}

/// The stream ends at cursor `i`: fewer than a full header remains, or
/// the length field overruns the buffer and the stream is abandoned at
/// the failed frame.
pub open spec fn spec_stream_done(b: Seq<u8>, i: int) -> bool {
    b.len() - i < 7 || spec_frame_len_at(b, i) > b.len() - (i + 7)
}

/// The payload of the frame at cursor `i`: empty when the length field is
/// zero, the declared bytes otherwise.
pub open spec fn spec_payload_at(b: Seq<u8>, i: int) -> Seq<u8> {
    if spec_frame_len_at(b, i) == 0 {
        Seq::empty()
    } else {
        b.subrange(i + 7, i + 7 + spec_frame_len_at(b, i))
    }
}

/// The cursor of the frame after the one at `i`.
pub open spec fn spec_next_cursor(b: Seq<u8>, i: int) -> int {
    i + 7 + spec_frame_len_at(b, i)
}

/// `c` is the context one frame is dispatched with: the caller's own poll
/// snapshot `base`, carrying exactly that frame's payload.
pub open spec fn spec_frame_ctx(c: HandlerContext, base: HandlerContext, payload: Seq<u8>) -> bool {
    &&& c == (HandlerContext { payload: c.payload, ..base })
    &&& c.payload@ == payload
}

/// Dispatching the frames between cursors `i` and `j` of the body takes
/// the directory and the registry from `(d0, cl0)` to `(d1, cl1)`: the
/// frames step strictly in arrival order, each handler receives exactly
/// its own frame's payload, and each step is the [`spec_dispatch_post`]
/// arm of its packet id — so keep-alives and unknown ids change nothing,
/// and a frame whose handler aborts leaves its exact no-op without
/// stopping the frames after it.
pub open spec fn spec_poll_trace(
    d0: PlayerSessions,
    cl0: ChannelList,
    d1: PlayerSessions,
    cl1: ChannelList,
    base: HandlerContext,
    b: Seq<u8>,
    i: int,
    j: int,
) -> bool
    decreases j - i,
{
    if i >= j || spec_stream_done(b, i) {
        i == j && d1 == d0 && cl1 == cl0
    } else if spec_next_cursor(b, i) > j {
        false
    } else {
        exists|mid_d: PlayerSessions, mid_cl: ChannelList, c: HandlerContext, r: Option<()>|
            {
                &&& #[trigger] spec_dispatch_post(
                    spec_packet_id_of(b[i]),
                    c,
                    d0,
                    mid_d,
                    cl0,
                    mid_cl,
                    r,
                )
                &&& spec_frame_ctx(c, base, spec_payload_at(b, i))
                &&& spec_poll_trace(mid_d, mid_cl, d1, cl1, base, b, spec_next_cursor(b, i), j)
            }
    }
}

/// One more dispatched frame extends a trace at its end.
proof fn lemma_poll_trace_snoc(
    d0: PlayerSessions,
    cl0: ChannelList,
    d1: PlayerSessions,
    cl1: ChannelList,
    d2: PlayerSessions,
    cl2: ChannelList,
    base: HandlerContext,
    b: Seq<u8>,
    i: int,
    j: int,
    c: HandlerContext,
    r: Option<()>,
)
    requires
        spec_poll_trace(d0, cl0, d1, cl1, base, b, i, j),
        !spec_stream_done(b, j),
        spec_frame_ctx(c, base, spec_payload_at(b, j)),
        spec_dispatch_post(spec_packet_id_of(b[j]), c, d1, d2, cl1, cl2, r),
    ensures
        spec_poll_trace(d0, cl0, d2, cl2, base, b, i, spec_next_cursor(b, j)),
    decreases j - i,
{
    let jn = spec_next_cursor(b, j);
    if i >= j || spec_stream_done(b, i) {
        assert(i == j);
        assert(spec_poll_trace(d2, cl2, d2, cl2, base, b, jn, jn));
        assert(spec_dispatch_post(spec_packet_id_of(b[i]), c, d0, d2, cl0, cl2, r));
        assert(spec_poll_trace(d0, cl0, d2, cl2, base, b, i, jn));
    } else {
        let (mid_d, mid_cl, c0, r0) = choose|
            mid_d: PlayerSessions,
            mid_cl: ChannelList,
            c0: HandlerContext,
            r0: Option<()>,
        |
            {
                &&& #[trigger] spec_dispatch_post(
                    spec_packet_id_of(b[i]),
                    c0,
                    d0,
                    mid_d,
                    cl0,
                    mid_cl,
                    r0,
                )
                &&& spec_frame_ctx(c0, base, spec_payload_at(b, i))
                &&& spec_poll_trace(mid_d, mid_cl, d1, cl1, base, b, spec_next_cursor(b, i), j)
            };
        lemma_poll_trace_snoc(
            mid_d,
            mid_cl,
            d1,
            cl1,
            d2,
            cl2,
            base,
            b,
            spec_next_cursor(b, i),
            j,
            c,
            r,
        );
        assert(spec_poll_trace(d0, cl0, d2, cl2, base, b, i, jn)) by {
            assert(spec_dispatch_post(
                spec_packet_id_of(b[i]),
                c0,
                d0,
                mid_d,
                cl0,
                mid_cl,
                r0,
            ));
            assert(spec_poll_trace(mid_d, mid_cl, d2, cl2, base, b, spec_next_cursor(b, i), jn));
        }
    }
}

/// The concatenation of a sequence of frames, in order.
pub open spec fn spec_flatten(frames: Seq<Seq<u8>>) -> Seq<u8>
    decreases frames.len(),
{
    if frames.len() == 0 {
        Seq::empty()
    } else {
        frames.first() + spec_flatten(frames.drop_first())
    }
}

/// The outcome of one poll cycle.
pub struct PollResult {
    /// Concatenated outbound frames, consumed once as the response body.
    pub response: Vec<u8>,
    /// The token no longer resolves: the response is the distinguished
    /// "please reconnect" signal instead of a normal drain.
    pub reconnect: bool,
}

/// Handles one authenticated poll: resolves the token, dispatches each
/// frame of the body strictly in arrival order, refreshes the session's
/// last-active time and (only on an address change) its network
/// metadata, and drains the mailbox into the response in FIFO order.
///
/// An unrecognized token returns the reconnect signal and touches
/// nothing.  Otherwise the contract names the mid-poll state the
/// dispatch loop reached: it is related to the entry state by
/// [`spec_poll_trace`] over the body's frames — one [`spec_dispatch_post`]
/// arm per frame, in order, each with its own payload — and the final
/// state adds only the liveness bookkeeping and the drain, whose frames
/// the response carries exactly.
pub fn handle_poll(
    directory: &mut PlayerSessions,
    channel_list: &mut ChannelList,
    token: &String,
    body: Vec<u8>,
    request_ip: String,
    geo: crate::session::GeoData,
    now: i64,
    max_message_length: Option<u32>,
    sensitive_words: Vec<String>,
) -> (r: PollResult)
    requires
        old(directory).wf(),
        old(channel_list).wf(),
    ensures
        final(directory).wf(),
        final(channel_list).wf(),
        !old(directory).has_token(token@) ==> ({
            &&& r.reconnect
            &&& r.response@ == spec_notification("Welcome back!"@) + spec_bancho_restart(0)
            &&& *final(directory) == *old(directory)
            &&& *final(channel_list) == *old(channel_list)
        }),
        old(directory).has_token(token@) ==> ({
            let s0 = old(directory).session_of_token(token@);
            &&& !r.reconnect
            &&& exists|base: HandlerContext, mid_d: PlayerSessions, mid_cl: ChannelList, j: int|
                {
                    &&& #[trigger] spec_poll_trace(
                        *old(directory),
                        *old(channel_list),
                        mid_d,
                        mid_cl,
                        base,
                        body@,
                        0,
                        j,
                    )
                    &&& spec_stream_done(body@, j)
                    &&& base.token@ == token@
                    &&& base.id == s0.id
                    &&& base.name@ == s0.name@
                    &&& base.now == now
                    &&& base.payload@ == Seq::<u8>::empty()
                    &&& base.max_message_length == max_message_length
                    &&& base.sensitive_words == sensitive_words
                    &&& base.request_ip@ == request_ip@
                    &&& base.data.describes(s0)
                    &&& *final(channel_list) == mid_cl
                    &&& (!mid_d.has_token(token@) ==> *final(directory) == mid_d && r.response@
                        == Seq::<u8>::empty())
                    &&& (mid_d.has_token(token@) ==> ({
                        let h = mid_d.handle_of_token(token@);
                        let s_mid = mid_d.at(h);
                        &&& PlayerSessions::only_session_changed(mid_d, *final(directory), h)
                        &&& final(directory).at(h) == (Session {
                            last_active_time: now,
                            ip: final(directory).at(h).ip,
                            geo: (if s_mid.ip@ != request_ip@ {
                                geo
                            } else {
                                s_mid.geo
                            }),
                            mailbox: final(directory).at(h).mailbox,
                            ..s_mid
                        })
                        &&& final(directory).at(h).ip@ == (if s_mid.ip@ != request_ip@ {
                            request_ip@
                        } else {
                            s_mid.ip@
                        })
                        &&& final(directory).at(h).mailbox_view().len() == 0
                        &&& r.response@ == spec_flatten(s_mid.mailbox_view())
                    }))
                }
        }),
{
    let ghost d0 = *old(directory);
    let ghost cl0 = *old(channel_list);
    let ghost bseq = body@;
    let mut resp = PacketBuilder::new();
    if !directory.token_is_exists(token) {
        proof {
            reveal_strlit("Welcome back!");
            assert(vstd::utf8::is_ascii_chars("Welcome back!"@));
            vstd::utf8::is_ascii_chars_encode_utf8("Welcome back!"@);
        }
        let mut reconnect_resp = PacketBuilder::new();
        reconnect_resp.add(crate::packets::notification("Welcome back!"));
        reconnect_resp.add(crate::packets::bancho_restart(0));
        proof {
            assert(reconnect_resp.content@ =~= spec_notification("Welcome back!"@)
                + spec_bancho_restart(0));
        }
        return PollResult { response: reconnect_resp.write_out(), reconnect: true };
    }
    let data = match directory.get_player_data(token) {
        Some(d) => d,
        None => {
            proof {
                assert(false);
            }
            return PollResult { response: Vec::new(), reconnect: true };
        },
    };
    let mut ctx = HandlerContext {
        request_ip: request_ip.clone(),
        token: token.clone(),
        id: data.id,
        name: data.name.clone(),
        u_name: match &data.u_name {
            Some(u) => Some(u.clone()),
            None => None,
        },
        data,
        payload: Vec::new(),
        now,
        max_message_length,
        sensitive_words,
    };
    let ghost base_ctx = ctx;
    proof {
        assert(base_ctx.payload@ =~= Seq::<u8>::empty());
    }
    // read and handle the client frames, strictly in arrival order
    let mut reader = PacketReader::from_vec(body);
    let ghost mut cur: int = 0;
    loop
        invariant_except_break
            cur == reader.index as int,
        invariant
            directory.wf(),
            channel_list.wf(),
            reader.buf@ == bseq,
            reader.index <= bseq.len(),
            ctx == (HandlerContext { payload: ctx.payload, ..base_ctx }),
            base_ctx.payload@ == Seq::<u8>::empty(),
            0 <= cur <= bseq.len(),
            spec_poll_trace(d0, cl0, *directory, *channel_list, base_ctx, bseq, 0, cur),
        ensures
            directory.wf(),
            channel_list.wf(),
            spec_poll_trace(d0, cl0, *directory, *channel_list, base_ctx, bseq, 0, cur),
            spec_stream_done(bseq, cur),
        decreases bseq.len() - reader.index,
    {
        let ghost i0 = cur;
        let ghost pre_d = *directory;
        let ghost pre_cl = *channel_list;
        let next = reader.next();
        match next {
            Some(frame) => {
                let (packet_id, payload) = frame;
                proof {
                    assert(!spec_stream_done(bseq, i0));
                    assert(reader.index as int == spec_next_cursor(bseq, i0));
                    assert(packet_id == spec_packet_id_of(bseq[i0]));
                }
                if matches!(packet_id, ClientPacketId::Ping) {
                    proof {
                        let c: HandlerContext = if payload is Some {
                            HandlerContext { payload: payload->0, ..base_ctx }
                        } else {
                            base_ctx
                        };
                        assert(c.payload@ == spec_payload_at(bseq, i0));
                        assert(spec_frame_ctx(c, base_ctx, spec_payload_at(bseq, i0)));
                        assert(spec_dispatch_post(
                            ClientPacketId::Ping,
                            c,
                            pre_d,
                            pre_d,
                            pre_cl,
                            pre_cl,
                            Some(()),
                        ));
                        lemma_poll_trace_snoc(
                            d0,
                            cl0,
                            pre_d,
                            pre_cl,
                            pre_d,
                            pre_cl,
                            base_ctx,
                            bseq,
                            0,
                            i0,
                            c,
                            Some(()),
                        );
                        cur = spec_next_cursor(bseq, i0);
                    }
                    continue ;
                }
                ctx.payload = match payload {
                    Some(p) => p,
                    None => Vec::new(),
                };
                proof {
                    assert(ctx.payload@ == spec_payload_at(bseq, i0));
                    assert(spec_frame_ctx(ctx, base_ctx, spec_payload_at(bseq, i0)));
                }
                let rr = dispatch_packet(packet_id, &ctx, directory, channel_list);
                proof {
                    let c = ctx;
                    lemma_poll_trace_snoc(
                        d0,
                        cl0,
                        pre_d,
                        pre_cl,
                        *directory,
                        *channel_list,
                        base_ctx,
                        bseq,
                        0,
                        i0,
                        c,
                        rr,
                    );
                    cur = spec_next_cursor(bseq, i0);
                }
            },
            None => {
                proof {
                    assert(spec_stream_done(bseq, i0));
                }
                break ;
            },
        }
    }
    let ghost mid_d = *directory;
    let ghost mid_cl = *channel_list;
    let ghost jj = cur;
    // refresh the session's liveness bookkeeping and drain its mailbox
    let ghost rip = request_ip@;
    match directory.get_player_by_token(token) {
        Some(h) => {
            proof {
                directory.lemma_token_lookup_live(token@);
            }
            let ghost s_mid = directory.at(h as int);
            let differs = match &directory.slots[h] {
                Some(s) => s.ip != request_ip,
                None => {
                    proof {
                        assert(false);
                    }
                    false
                },
            };
            directory.update_active_at(h, now);
            let ghost d_a = *directory;
            if differs {
                directory.update_ip_at(h, request_ip, geo);
            }
            let ghost d_b = *directory;
            proof {
                assert(PlayerSessions::only_session_changed(mid_d, d_b, h as int)) by {
                    assert forall|g: int|
                        0 <= g < mid_d.slots@.len() && g != h as int implies d_b.slots@[g]
                        == mid_d.slots@[g] by {
                        assert(d_a.slots@[g] == mid_d.slots@[g]);
                    }
                }
                assert(resp.content@ + spec_flatten(d_b.at(h as int).mailbox_view())
                    =~= spec_flatten(s_mid.mailbox_view()));
            }
            loop
                invariant
                    directory.wf(),
                    mid_d.wf(),
                    directory.live(h as int),
                    PlayerSessions::only_session_changed(mid_d, *directory, h as int),
                    directory.at(h as int) == (Session {
                        last_active_time: now,
                        ip: directory.at(h as int).ip,
                        geo: (if s_mid.ip@ != rip {
                            geo
                        } else {
                            s_mid.geo
                        }),
                        mailbox: directory.at(h as int).mailbox,
                        ..s_mid
                    }),
                    directory.at(h as int).ip@ == (if s_mid.ip@ != rip {
                        rip
                    } else {
                        s_mid.ip@
                    }),
                    resp.content@ + spec_flatten(directory.at(h as int).mailbox_view())
                        == spec_flatten(s_mid.mailbox_view()),
                ensures
                    directory.wf(),
                    directory.live(h as int),
                    PlayerSessions::only_session_changed(mid_d, *directory, h as int),
                    directory.at(h as int) == (Session {
                        last_active_time: now,
                        ip: directory.at(h as int).ip,
                        geo: (if s_mid.ip@ != rip {
                            geo
                        } else {
                            s_mid.geo
                        }),
                        mailbox: directory.at(h as int).mailbox,
                        ..s_mid
                    }),
                    directory.at(h as int).ip@ == (if s_mid.ip@ != rip {
                        rip
                    } else {
                        s_mid.ip@
                    }),
                    directory.at(h as int).mailbox_view().len() == 0,
                    resp.content@ == spec_flatten(s_mid.mailbox_view()),
                decreases directory.at(h as int).mailbox_view().len(),
            {
                let ghost dq_pre = *directory;
                let ghost mb_pre = directory.at(h as int).mailbox_view();
                match directory.dequeue_at(h) {
                    Some(packet) => {
                        resp.add(packet);
                        proof {
                            assert(spec_flatten(mb_pre) == mb_pre.first() + spec_flatten(
                                mb_pre.drop_first(),
                            ));
                            assert(resp.content@ + spec_flatten(
                                directory.at(h as int).mailbox_view(),
                            ) =~= spec_flatten(s_mid.mailbox_view()));
                            assert(PlayerSessions::only_session_changed(
                                mid_d,
                                *directory,
                                h as int,
                            )) by {
                                assert forall|g: int|
                                    0 <= g < mid_d.slots@.len() && g != h as int implies directory
                                    .slots@[g] == mid_d.slots@[g] by {
                                    assert(dq_pre.slots@[g] == mid_d.slots@[g]);
                                }
                            }
                        }
                    },
                    None => {
                        proof {
                            assert(directory.at(h as int).mailbox_view()
                                =~= Seq::<Seq<u8>>::empty());
                            assert(resp.content@ =~= spec_flatten(s_mid.mailbox_view()));
                        }
                        break ;
                    },
                }
            }
            proof {
                assert(mid_d.has_token(token@));
                assert(mid_d.handle_of_token(token@) == h as int);
                assert(base_ctx.token@ == token@);
                assert(base_ctx.data.describes(d0.session_of_token(token@)));
            }
        },
        None => (),
    }
    proof {
        if d0.has_token(token@) {
            assert(spec_poll_trace(d0, cl0, mid_d, mid_cl, base_ctx, bseq, 0, jj));
        }
    }
    PollResult { response: resp.write_out(), reconnect: false }
}

} // verus!
