//! End-to-end checks of the wire codec, the session directory, the
//! channel registry, the packet handlers, and the poll orchestrator.

use bancho_core::channel::{Channel, ChannelBase, ChannelList, ChannelListBuilder};
use bancho_core::codec::{
    PacketBuilder, new_frame, read_uleb128, write_string_field, write_u16_le, write_u32_le,
    write_uleb128,
};
use bancho_core::directory::PlayerSessions;
use bancho_core::handlers::{
    HandlerContext, add_friend, change_action, channel_join, channel_part, presence_request,
    receive_updates, remove_friend, request_status_update, set_away_message,
    toggle_block_non_friend_dms, user_logout,
};
use bancho_core::modes::derive_game_mode;
use bancho_core::orchestrator::handle_poll;
use bancho_core::packets::{bancho_restart, login_reply, notification, user_logout_packet};
use bancho_core::reader::{ClientPacketId, PacketReader, PayloadReader};
use bancho_core::session::{GeoData, PlayerBase, Session};

fn geo() -> GeoData {
    GeoData { country_code: 0, utc_offset: 24, longitude_bits: 0, latitude_bits: 0 }
}

fn base(id: i32, name: &str) -> PlayerBase {
    PlayerBase {
        id,
        name: name.to_string(),
        u_name: None,
        password: String::new(),
        privileges: 3,
        country: "XX".to_string(),
    }
}

fn session(id: i32, name: &str, token: &str) -> Session {
    Session::from_base(
        base(id, name),
        token.to_string(),
        0,
        vec![],
        1000,
        false,
        "127.0.0.1".to_string(),
        geo(),
    )
}

fn ctx_for(dir: &PlayerSessions, token: &str, payload: Vec<u8>, now: i64) -> HandlerContext {
    let data = dir.get_player_data(&token.to_string()).unwrap();
    HandlerContext {
        request_ip: "127.0.0.1".to_string(),
        token: token.to_string(),
        id: data.id,
        name: data.name.clone(),
        u_name: data.u_name.clone(),
        data,
        payload,
        now,
        max_message_length: Some(128),
        sensitive_words: vec![],
    }
}

fn mailbox_of(dir: &PlayerSessions, id: i32) -> Vec<Vec<u8>> {
    let h = dir.get_player_by_id(id).unwrap();
    match &dir.slots[h] {
        Some(s) => s.mailbox.clone(),
        None => panic!("tombstoned handle"),
    }
}

fn session_at(dir: &PlayerSessions, id: i32) -> &Session {
    let h = dir.get_player_by_id(id).unwrap();
    match &dir.slots[h] {
        Some(s) => s,
        None => panic!("tombstoned handle"),
    }
}

fn i32_list_payload(ids: &[i32]) -> Vec<u8> {
    let mut p: Vec<u8> = Vec::new();
    write_u16_le(&mut p, ids.len() as u16);
    for id in ids {
        write_u32_le(&mut p, *id as u32);
    }
    p
}

// ---------------------------------------------------------------------------
// ULEB128
// ---------------------------------------------------------------------------

#[test]
fn uleb128_round_trip_values() {
    for v in [0u32, 1, 127, 128, 129, 300, 16383, 16384, 65535, u32::MAX] {
        let mut out: Vec<u8> = Vec::new();
        write_uleb128(&mut out, v);
        let (decoded, used) = read_uleb128(out.as_slice()).unwrap();
        assert_eq!(decoded, v);
        assert_eq!(used, out.len());
    }
}

#[test]
fn uleb128_minimal_length() {
    let mut one: Vec<u8> = Vec::new();
    write_uleb128(&mut one, 127);
    assert_eq!(one, vec![127]);
    let mut two: Vec<u8> = Vec::new();
    write_uleb128(&mut two, 128);
    assert_eq!(two, vec![0x80, 0x01]);
    // a padded encoding still decodes, but is longer than the canonical one
    let padded = vec![0x80u8, 0x80, 0x00];
    let (v, used) = read_uleb128(padded.as_slice()).unwrap();
    assert_eq!(v, 0);
    assert_eq!(used, 3);
    let mut canonical: Vec<u8> = Vec::new();
    write_uleb128(&mut canonical, 0);
    assert!(canonical.len() <= padded.len());
}

#[test]
fn uleb128_truncated_is_error() {
    assert!(read_uleb128(&[0x80u8, 0x80]).is_none());
    assert!(read_uleb128(&[]).is_none());
}

#[test]
fn uleb128_oversized_is_error() {
    // six maximal continuation groups encode a value beyond u32
    assert!(read_uleb128(&[0xffu8, 0xff, 0xff, 0xff, 0xff, 0x01]).is_none());
}

// ---------------------------------------------------------------------------
// Frames
// ---------------------------------------------------------------------------

#[test]
fn frame_round_trip_bytes() {
    let payload = vec![1u8, 2, 3, 4, 5];
    let frame = new_frame(99, &payload);
    assert_eq!(&frame[..3], &[99, 0, 0]);
    assert_eq!(&frame[3..7], &5u32.to_le_bytes());
    let mut reader = PacketReader::from_vec(frame.clone());
    let (pid, body) = reader.next().unwrap();
    assert_eq!(pid, ClientPacketId::UserToggleBlockNonFriendDms);
    let body = body.unwrap();
    assert_eq!(body, payload);
    // re-encoding the decoded frame reproduces the original bytes
    let again = new_frame(99, &body);
    assert_eq!(again, frame);
}

#[test]
fn packet_reader_walks_frames_in_order() {
    let mut body: Vec<u8> = Vec::new();
    body.extend_from_slice(&new_frame(4, &Vec::new()));
    body.extend_from_slice(&new_frame(0, &vec![7u8]));
    body.extend_from_slice(&new_frame(200, &Vec::new()));
    let mut reader = PacketReader::from_vec(body);
    assert_eq!(reader.next().unwrap().0, ClientPacketId::Ping);
    assert_eq!(reader.next().unwrap().0, ClientPacketId::UserChangeAction);
    assert_eq!(reader.next().unwrap().0, ClientPacketId::Unknown);
    assert!(reader.next().is_none());
    assert!(reader.finish);
    assert!(!reader.truncated);
    assert_eq!(reader.packet_count, 3);
}

#[test]
fn packet_reader_flags_overrunning_length() {
    // header declares four payload bytes, but only one follows
    let body = vec![0u8, 0, 0, 4, 0, 0, 0, 9];
    let mut reader = PacketReader::from_vec(body);
    assert!(reader.next().is_none());
    assert!(reader.truncated);
    reader.reset();
    assert!(!reader.truncated);
    assert_eq!(reader.index, 0);
}

#[test]
fn read_header_reports_first_frame() {
    let frame = new_frame(2, &vec![1u8, 2]);
    let (pid, len) = PacketReader::read_header(frame).unwrap();
    assert_eq!(pid, ClientPacketId::UserLogout);
    assert_eq!(len, 2);
    assert!(PacketReader::read_header(vec![1, 2, 3]).is_none());
}

// ---------------------------------------------------------------------------
// Payload fields
// ---------------------------------------------------------------------------

#[test]
fn read_string_decodes_sentinel_and_skips_other_presence_bytes() {
    let mut p: Vec<u8> = Vec::new();
    write_string_field(&mut p, "hello");
    let mut r = PayloadReader::new(p.as_slice());
    assert_eq!(r.read_string().unwrap(), "hello");

    // any other presence byte is an empty string, consumed
    let q = vec![0u8, 42u8];
    let mut r = PayloadReader::new(q.as_slice());
    assert_eq!(r.read_string().unwrap(), "");
    assert_eq!(r.read_u8().unwrap(), 42);
}

#[test]
fn read_string_invalid_utf8_is_empty_not_error() {
    // sentinel, length two, invalid UTF-8 bytes
    let p = vec![11u8, 2, 0xff, 0xfe];
    let mut r = PayloadReader::new(p.as_slice());
    assert_eq!(r.read_string().unwrap(), "");
}

#[test]
fn read_string_truncated_is_error() {
    let p = vec![11u8, 5, b'h', b'i'];
    let mut r = PayloadReader::new(p.as_slice());
    assert!(r.read_string().is_none());
}

#[test]
fn read_i32_list_counts_and_values() {
    let p = i32_list_payload(&[3, -1, 700]);
    let mut r = PayloadReader::new(p.as_slice());
    assert_eq!(r.read_i32_list().unwrap(), vec![3, -1, 700]);

    // short element data is an error
    let mut bad: Vec<u8> = Vec::new();
    write_u16_le(&mut bad, 2);
    write_u32_le(&mut bad, 5);
    let mut r = PayloadReader::new(bad.as_slice());
    assert!(r.read_i32_list().is_none());
}

// ---------------------------------------------------------------------------
// Outbound packets
// ---------------------------------------------------------------------------

#[test]
fn notification_exact_bytes() {
    let p = notification("hi");
    assert_eq!(p, vec![24, 0, 0, 4, 0, 0, 0, 11, 2, b'h', b'i']);
}

#[test]
fn login_reply_and_restart_exact_bytes() {
    assert_eq!(login_reply(5), vec![5, 0, 0, 4, 0, 0, 0, 5, 0, 0, 0]);
    assert_eq!(login_reply(-1), vec![5, 0, 0, 4, 0, 0, 0, 0xff, 0xff, 0xff, 0xff]);
    assert_eq!(bancho_restart(0), vec![86, 0, 0, 4, 0, 0, 0, 0, 0, 0, 0]);
}

#[test]
fn user_logout_packet_exact_bytes() {
    assert_eq!(user_logout_packet(7), vec![12, 0, 0, 5, 0, 0, 0, 7, 0, 0, 0, 0]);
}

#[test]
fn packet_builder_concatenates_in_order() {
    let mut b = PacketBuilder::new();
    b.add(notification("a"));
    let r = bancho_restart(1);
    b.add_ref(&r);
    let out = b.write_out();
    let mut expected = notification("a");
    expected.extend_from_slice(&r);
    assert_eq!(out, expected);
}

// ---------------------------------------------------------------------------
// Mode derivation
// ---------------------------------------------------------------------------

#[test]
fn mode_derivation_table() {
    let relax = 128u32;
    let autopilot = 8192u32;
    assert_eq!(derive_game_mode(0, 0), Some(0));
    assert_eq!(derive_game_mode(1, 0), Some(1));
    assert_eq!(derive_game_mode(2, 0), Some(2));
    assert_eq!(derive_game_mode(3, 0), Some(3));
    assert_eq!(derive_game_mode(0, relax), Some(4));
    assert_eq!(derive_game_mode(1, relax), Some(5));
    assert_eq!(derive_game_mode(2, relax), Some(6));
    assert_eq!(derive_game_mode(3, relax), None);
    assert_eq!(derive_game_mode(0, autopilot), Some(8));
    assert_eq!(derive_game_mode(1, autopilot), None);
    assert_eq!(derive_game_mode(2, autopilot), None);
    assert_eq!(derive_game_mode(3, autopilot), None);
    assert_eq!(derive_game_mode(0, relax | autopilot), None);
    assert_eq!(derive_game_mode(4, 0), None);
    assert_eq!(derive_game_mode(255, 0), None);
}

// ---------------------------------------------------------------------------
// Directory
// ---------------------------------------------------------------------------

#[test]
fn login_then_logout_restores_count_and_maps() {
    let mut dir = PlayerSessions::new(8);
    assert_eq!(dir.player_count, 0);
    let token = dir.login(session(1, "a", "tok-a"));
    assert_eq!(token, "tok-a");
    assert_eq!(dir.player_count, 1);
    assert!(dir.token_is_exists(&"tok-a".to_string()));
    assert!(dir.id_is_exists(1));
    assert!(dir.get_player_by_name(&"a".to_string()).is_some());

    let gone = dir.logout(&"tok-a".to_string()).unwrap();
    assert_eq!(gone.id, 1);
    assert_eq!(dir.player_count, 0);
    assert!(!dir.token_is_exists(&"tok-a".to_string()));
    assert!(!dir.id_is_exists(1));
    assert!(dir.get_player_by_name(&"a".to_string()).is_none());
}

#[test]
fn logout_broadcasts_to_remaining_sessions() {
    let mut dir = PlayerSessions::new(8);
    dir.login(session(1, "a", "tok-a"));
    dir.login(session(2, "b", "tok-b"));
    dir.logout(&"tok-a".to_string()).unwrap();
    let mb = mailbox_of(&dir, 2);
    assert_eq!(mb.len(), 1);
    assert_eq!(mb[0], user_logout_packet(1));
}

#[test]
fn logout_unknown_token_is_noop() {
    let mut dir = PlayerSessions::new(8);
    dir.login(session(1, "a", "tok-a"));
    assert!(dir.logout(&"missing".to_string()).is_none());
    assert_eq!(dir.player_count, 1);
    assert_eq!(mailbox_of(&dir, 1).len(), 0);
}

#[test]
fn logout_with_id_for_non_existent_id_mutates_nothing() {
    let mut dir = PlayerSessions::new(8);
    dir.login(session(1, "a", "tok-a"));
    let r = dir.logout_with_id(999);
    assert!(r.is_none());
    assert_eq!(dir.player_count, 1);
    assert!(dir.token_is_exists(&"tok-a".to_string()));
    // no broadcast reached anyone
    assert_eq!(mailbox_of(&dir, 1).len(), 0);
}

#[test]
fn enqueue_all_is_fifo_per_session() {
    let mut dir = PlayerSessions::new(8);
    dir.login(session(1, "a", "tok-a"));
    dir.login(session(2, "b", "tok-b"));
    let first = notification("one");
    let second = notification("two");
    dir.enqueue_all(&first);
    dir.enqueue_all(&second);
    for id in [1, 2] {
        let h = dir.get_player_by_id(id).unwrap();
        assert_eq!(dir.dequeue_at(h).unwrap(), first);
        assert_eq!(dir.dequeue_at(h).unwrap(), second);
        assert!(dir.dequeue_at(h).is_none());
    }
}

#[test]
fn enqueue_by_token_and_id_target_one_session() {
    let mut dir = PlayerSessions::new(8);
    dir.login(session(1, "a", "tok-a"));
    dir.login(session(2, "b", "tok-b"));
    assert!(dir.enqueue_by_token(&"tok-a".to_string(), notification("x")));
    assert!(dir.enqueue_by_id(2, notification("y")));
    assert!(!dir.enqueue_by_token(&"nope".to_string(), notification("z")));
    assert!(!dir.enqueue_by_id(9, notification("z")));
    assert_eq!(mailbox_of(&dir, 1).len(), 1);
    assert_eq!(mailbox_of(&dir, 2).len(), 1);
}

#[test]
fn deactive_token_list_reports_stale_sessions() {
    let mut dir = PlayerSessions::new(8);
    dir.login(session(1, "a", "tok-a"));
    dir.login(session(2, "b", "tok-b"));
    let hb = dir.get_player_by_id(2).unwrap();
    dir.update_active_at(hb, 5000);
    // session a last active at 1000; timeout 60 against now 2000 keeps b only
    let stale = dir.deactive_token_list_at(60, 2000);
    assert_eq!(stale, vec!["tok-a".to_string()]);
    let none_stale = dir.deactive_token_list_at(10_000, 2000);
    assert!(none_stale.is_empty());
}

#[test]
fn friends_add_is_idempotent_and_remove_is_ordered() {
    let mut dir = PlayerSessions::new(8);
    dir.login(session(1, "a", "tok-a"));
    let h = dir.get_player_by_id(1).unwrap();
    assert!(dir.friends_add_at(h, 30));
    assert!(dir.friends_add_at(h, 10));
    assert!(dir.friends_add_at(h, 20));
    assert!(!dir.friends_add_at(h, 20));
    assert_eq!(session_at(&dir, 1).friends, vec![10, 20, 30]);
    assert!(dir.friends_remove_at(h, 20));
    assert!(!dir.friends_remove_at(h, 20));
    assert_eq!(session_at(&dir, 1).friends, vec![10, 30]);
}

// ---------------------------------------------------------------------------
// Channels
// ---------------------------------------------------------------------------

#[test]
fn channels_from_bases_seeds_persistent_rooms() {
    let bases = vec![
        ChannelBase {
            name: "#osu".to_string(),
            title: "main".to_string(),
            read_priv: 1,
            write_priv: 2,
            auto_join: true,
        },
        ChannelBase {
            name: "#announce".to_string(),
            title: "news".to_string(),
            read_priv: 1,
            write_priv: 8,
            auto_join: false,
        },
    ];
    let cl = ChannelListBuilder::channels_from_bases(bases);
    assert_eq!(cl.channels.len(), 2);
    assert_eq!(cl.channels[0].name, "#osu");
    assert!(!cl.channels[0].auto_close);
    assert!(cl.find_channel(&"#announce".to_string()).is_some());
    assert!(cl.find_channel(&"#missing".to_string()).is_none());
}

#[test]
fn auto_close_channel_vanishes_with_last_member() {
    let mut dir = PlayerSessions::new(8);
    dir.login(session(1, "a", "tok-a"));
    let h = dir.get_player_by_id(1).unwrap();
    let mut cl = ChannelList::new();
    cl.channels.push(Channel::new_auto_close("#lobby".to_string(), "lobby".to_string()));
    assert_eq!(cl.channels[0].id_map.len(), 0);

    assert!(cl.join_player(&"#lobby".to_string(), &mut dir, h, false));
    assert_eq!(cl.channels[0].id_map, vec![1]);
    assert!(session_at(&dir, 1).channels.contains(&"#lobby".to_string()));

    assert!(cl.leave(&"#lobby".to_string(), &mut dir, 1, false));
    assert!(cl.find_channel(&"#lobby".to_string()).is_none());
    assert!(!session_at(&dir, 1).channels.contains(&"#lobby".to_string()));
}

#[test]
fn join_is_gated_by_read_privileges() {
    let mut dir = PlayerSessions::new(8);
    // privileges 3 lack the admin bit 8
    dir.login(session(1, "a", "tok-a"));
    let h = dir.get_player_by_id(1).unwrap();
    let mut cl = ChannelListBuilder::channels_from_bases(vec![ChannelBase {
        name: "#staff".to_string(),
        title: "staff".to_string(),
        read_priv: 8,
        write_priv: 8,
        auto_join: false,
    }]);
    assert!(!cl.join_player(&"#staff".to_string(), &mut dir, h, false));
    assert_eq!(cl.channels[0].id_map.len(), 0);
    assert_eq!(mailbox_of(&dir, 1).len(), 0);
}

#[test]
fn logout_leaves_every_joined_channel() {
    let mut dir = PlayerSessions::new(8);
    dir.login(session(1, "a", "tok-a"));
    dir.login(session(2, "b", "tok-b"));
    let ha = dir.get_player_by_id(1).unwrap();
    let hb = dir.get_player_by_id(2).unwrap();
    let mut cl = ChannelListBuilder::channels_from_bases(vec![ChannelBase {
        name: "#osu".to_string(),
        title: "main".to_string(),
        read_priv: 1,
        write_priv: 2,
        auto_join: true,
    }]);
    assert!(cl.join_player(&"#osu".to_string(), &mut dir, ha, false));
    assert!(cl.join_player(&"#osu".to_string(), &mut dir, hb, false));
    let gone = bancho_core::channel::logout_with_channels(
        &mut dir,
        &mut cl,
        &"tok-a".to_string(),
    )
    .unwrap();
    assert_eq!(gone.id, 1);
    // the persistent channel survives, without the departed member
    assert_eq!(cl.channels[0].id_map, vec![2]);
}

// ---------------------------------------------------------------------------
// Handlers
// ---------------------------------------------------------------------------

#[test]
fn presence_request_reaches_only_the_requester_and_skips_self() {
    let mut dir = PlayerSessions::new(8);
    dir.login(session(1, "a", "tok-a"));
    dir.login(session(2, "b", "tok-b"));

    // A requests presence for [2]: B's mailbox stays empty, A gains one
    let ctx = ctx_for(&dir, "tok-a", i32_list_payload(&[2]), 2000);
    assert!(presence_request(&ctx, &mut dir).is_some());
    assert_eq!(mailbox_of(&dir, 2).len(), 0);
    let a_mail = mailbox_of(&dir, 1);
    assert_eq!(a_mail.len(), 1);
    let hb = dir.get_player_by_id(2).unwrap();
    assert_eq!(a_mail[0], dir.presence_packet_at(hb, false));

    // requesting [1, 2] skips id 1 (self): exactly one more packet
    let ctx = ctx_for(&dir, "tok-a", i32_list_payload(&[1, 2]), 2000);
    assert!(presence_request(&ctx, &mut dir).is_some());
    assert_eq!(mailbox_of(&dir, 1).len(), 2);
    assert_eq!(mailbox_of(&dir, 2).len(), 0);
}

#[test]
fn change_action_with_autopilot_derives_standard_autopilot_mode() {
    let mut dir = PlayerSessions::new(8);
    dir.login(session(1, "a", "tok-a"));
    dir.login(session(2, "b", "tok-b"));

    let mut payload: Vec<u8> = Vec::new();
    payload.push(0);  // action: idle
    write_string_field(&mut payload, "");
    write_string_field(&mut payload, "");
    write_u32_le(&mut payload, 8192);  // mods: autopilot
    payload.push(0);  // base mode: standard
    write_u32_le(&mut payload, 0);  // beatmap id

    let ctx = ctx_for(&dir, "tok-a", payload, 2000);
    assert!(change_action(&ctx, &mut dir).is_some());
    assert_eq!(session_at(&dir, 1).status.game_mode, 8);
    assert_eq!(session_at(&dir, 1).status.play_mods, 8192);

    // every live session gained exactly one updated-stats frame for A
    let ha = dir.get_player_by_id(1).unwrap();
    let expected = dir.stats_packet_at(ha);
    for id in [1, 2] {
        let mb = mailbox_of(&dir, id);
        assert_eq!(mb.len(), 1);
        assert_eq!(mb[0], expected);
    }
}

#[test]
fn change_action_rejects_invalid_mode_combination() {
    let mut dir = PlayerSessions::new(8);
    dir.login(session(1, "a", "tok-a"));
    let mut payload: Vec<u8> = Vec::new();
    payload.push(0);
    write_string_field(&mut payload, "");
    write_string_field(&mut payload, "");
    write_u32_le(&mut payload, 128);  // relax...
    payload.push(3);  // ...on mania is invalid
    write_u32_le(&mut payload, 0);
    let ctx = ctx_for(&dir, "tok-a", payload, 2000);
    assert!(change_action(&ctx, &mut dir).is_none());
    assert_eq!(session_at(&dir, 1).status.game_mode, 0);
    assert_eq!(mailbox_of(&dir, 1).len(), 0);
}

#[test]
fn user_logout_guard_and_effect() {
    let mut dir = PlayerSessions::new(8);
    let mut cl = ChannelList::new();
    dir.login(session(1, "a", "tok-a"));
    // login_time is 1000: a logout in the same instant is rejected
    let ctx = ctx_for(&dir, "tok-a", vec![], 1000);
    assert!(user_logout(&ctx, &mut dir, &mut cl).is_none());
    assert_eq!(dir.player_count, 1);
    let ctx = ctx_for(&dir, "tok-a", vec![], 1002);
    assert!(user_logout(&ctx, &mut dir, &mut cl).is_some());
    assert_eq!(dir.player_count, 0);
}

#[test]
fn friend_handlers_reject_sentinel_and_offline_targets() {
    let mut dir = PlayerSessions::new(8);
    dir.login(session(1, "a", "tok-a"));
    dir.login(session(2, "b", "tok-b"));
    let mut neg: Vec<u8> = Vec::new();
    write_u32_le(&mut neg, (-1i32) as u32);
    let ctx = ctx_for(&dir, "tok-a", neg, 2000);
    assert!(add_friend(&ctx, &mut dir).is_none());

    let mut offline: Vec<u8> = Vec::new();
    write_u32_le(&mut offline, 42);
    let ctx = ctx_for(&dir, "tok-a", offline, 2000);
    assert!(add_friend(&ctx, &mut dir).is_none());

    let mut online: Vec<u8> = Vec::new();
    write_u32_le(&mut online, 2);
    let ctx = ctx_for(&dir, "tok-a", online.clone(), 2000);
    assert!(add_friend(&ctx, &mut dir).is_some());
    assert_eq!(session_at(&dir, 1).friends, vec![2]);

    let ctx = ctx_for(&dir, "tok-a", online, 2000);
    assert!(remove_friend(&ctx, &mut dir).is_some());
    assert!(session_at(&dir, 1).friends.is_empty());
}

#[test]
fn receive_updates_sets_presence_filter_and_rejects_junk() {
    let mut dir = PlayerSessions::new(8);
    dir.login(session(1, "a", "tok-a"));
    let mut p: Vec<u8> = Vec::new();
    write_u32_le(&mut p, 2);
    let ctx = ctx_for(&dir, "tok-a", p, 2000);
    assert!(receive_updates(&ctx, &mut dir).is_some());
    assert_eq!(
        session_at(&dir, 1).presence_filter,
        bancho_core::modes::PresenceFilter::Friends
    );
    let mut bad: Vec<u8> = Vec::new();
    write_u32_le(&mut bad, 9);
    let ctx = ctx_for(&dir, "tok-a", bad, 2000);
    assert!(receive_updates(&ctx, &mut dir).is_none());
}

#[test]
fn request_status_update_queues_own_stats() {
    let mut dir = PlayerSessions::new(8);
    dir.login(session(1, "a", "tok-a"));
    let ctx = ctx_for(&dir, "tok-a", vec![], 2000);
    assert!(request_status_update(&ctx, &mut dir).is_some());
    let ha = dir.get_player_by_id(1).unwrap();
    let mb = mailbox_of(&dir, 1);
    assert_eq!(mb.len(), 1);
    assert_eq!(mb[0], dir.stats_packet_at(ha));
}

#[test]
fn toggle_block_non_friend_dms_tracks_value() {
    let mut dir = PlayerSessions::new(8);
    dir.login(session(1, "a", "tok-a"));
    let mut p: Vec<u8> = Vec::new();
    write_u32_le(&mut p, 1);
    let ctx = ctx_for(&dir, "tok-a", p, 2000);
    assert!(toggle_block_non_friend_dms(&ctx, &mut dir).is_some());
    assert!(session_at(&dir, 1).only_friend_pm_allowed);
    let mut p: Vec<u8> = Vec::new();
    write_u32_le(&mut p, 0);
    let ctx = ctx_for(&dir, "tok-a", p, 2000);
    assert!(toggle_block_non_friend_dms(&ctx, &mut dir).is_some());
    assert!(!session_at(&dir, 1).only_friend_pm_allowed);
}

#[test]
fn set_away_message_truncates_and_censors() {
    let mut dir = PlayerSessions::new(8);
    dir.login(session(1, "a", "tok-a"));
    let mut p: Vec<u8> = Vec::new();
    write_string_field(&mut p, "gone");  // sender
    write_string_field(&mut p, "back sooner or later");  // content
    write_string_field(&mut p, "");  // target
    write_u32_le(&mut p, 1);  // sender id
    let mut ctx = ctx_for(&dir, "tok-a", p, 2000);
    ctx.max_message_length = Some(9);
    ctx.sensitive_words = vec!["soon".to_string()];
    assert!(set_away_message(&ctx, &mut dir).is_some());
    // cut to nine bytes ("back soon"), then the sensitive word replaced
    assert_eq!(session_at(&dir, 1).away_message, "back **");
}

#[test]
fn channel_join_and_part_handlers_update_membership() {
    let mut dir = PlayerSessions::new(8);
    dir.login(session(1, "a", "tok-a"));
    let mut cl = ChannelListBuilder::channels_from_bases(vec![ChannelBase {
        name: "#osu".to_string(),
        title: "main".to_string(),
        read_priv: 1,
        write_priv: 2,
        auto_join: true,
    }]);
    let mut p: Vec<u8> = Vec::new();
    write_string_field(&mut p, "#osu");
    let ctx = ctx_for(&dir, "tok-a", p.clone(), 2000);
    assert!(channel_join(&ctx, &mut dir, &mut cl).is_some());
    assert_eq!(cl.channels[0].id_map, vec![1]);
    // the joiner got an acknowledgement and the broadcast channel info
    assert_eq!(mailbox_of(&dir, 1).len(), 2);

    let ctx = ctx_for(&dir, "tok-a", p, 2000);
    assert!(channel_part(&ctx, &mut dir, &mut cl).is_some());
    assert_eq!(cl.channels[0].id_map.len(), 0);

    // unknown channels are skipped silently
    let mut q: Vec<u8> = Vec::new();
    write_string_field(&mut q, "#nowhere");
    let ctx = ctx_for(&dir, "tok-a", q, 2000);
    assert!(channel_join(&ctx, &mut dir, &mut cl).is_some());
}

#[test]
fn logout_with_id_removes_and_broadcasts() {
    let mut dir = PlayerSessions::new(8);
    dir.login(session(1, "a", "tok-a"));
    dir.login(session(2, "b", "tok-b"));
    let gone = dir.logout_with_id(1).unwrap();
    assert_eq!(gone.id, 1);
    assert_eq!(dir.player_count, 1);
    assert!(!dir.id_is_exists(1));
    let mb = mailbox_of(&dir, 2);
    assert_eq!(mb.len(), 1);
    assert_eq!(mb[0], user_logout_packet(1));
}

#[test]
fn stats_request_skips_self_and_offline() {
    let mut dir = PlayerSessions::new(8);
    dir.login(session(1, "a", "tok-a"));
    dir.login(session(2, "b", "tok-b"));
    let ctx = ctx_for(&dir, "tok-a", i32_list_payload(&[1, 2, 99]), 2000);
    assert!(bancho_core::handlers::stats_request(&ctx, &mut dir).is_some());
    let hb = dir.get_player_by_id(2).unwrap();
    let a_mail = mailbox_of(&dir, 1);
    assert_eq!(a_mail.len(), 1);
    assert_eq!(a_mail[0], dir.stats_packet_at(hb));
    assert_eq!(mailbox_of(&dir, 2).len(), 0);
}

#[test]
fn presence_request_all_reaches_requester_without_self() {
    let mut dir = PlayerSessions::new(8);
    dir.login(session(1, "a", "tok-a"));
    dir.login(session(2, "b", "tok-b"));
    dir.login(session(3, "c", "tok-c"));
    let ctx = ctx_for(&dir, "tok-a", vec![], 2000);
    assert!(bancho_core::handlers::presence_request_all(&ctx, &mut dir).is_some());
    assert_eq!(mailbox_of(&dir, 1).len(), 2);
    assert_eq!(mailbox_of(&dir, 2).len(), 0);
    assert_eq!(mailbox_of(&dir, 3).len(), 0);
}

#[test]
fn handle_player_runs_closure_on_the_session() {
    let mut dir = PlayerSessions::new(8);
    dir.login(session(1, "a", "tok-a"));
    let r = dir.handle_player(&"tok-a".to_string(), |mut s: Session| {
        s.in_lobby = true;
        (s, Some(()))
    });
    assert!(r.is_ok());
    assert!(session_at(&dir, 1).in_lobby);
    let r = dir.handle_player_get(&"tok-a".to_string(), |s: Session| (s, Some(())));
    assert!(r.unwrap().in_lobby);
    let r = dir.handle_player(&"missing".to_string(), |s: Session| (s, Some(())));
    assert!(r.is_err());
}

// ---------------------------------------------------------------------------
// Orchestrator
// ---------------------------------------------------------------------------

#[test]
fn poll_with_unknown_token_is_reconnect_signal() {
    let mut dir = PlayerSessions::new(8);
    let mut cl = ChannelList::new();
    let r = handle_poll(
        &mut dir,
        &mut cl,
        &"missing".to_string(),
        vec![],
        "127.0.0.1".to_string(),
        geo(),
        2000,
        None,
        vec![],
    );
    assert!(r.reconnect);
    let mut expected = notification("Welcome back!");
    expected.extend_from_slice(&bancho_restart(0));
    assert_eq!(r.response, expected);
}

#[test]
fn poll_dispatches_frames_and_drains_mailbox() {
    let mut dir = PlayerSessions::new(8);
    let mut cl = ChannelList::new();
    dir.login(session(1, "a", "tok-a"));
    dir.login(session(2, "b", "tok-b"));

    // body: a keep-alive, then a presence request for B
    let mut body: Vec<u8> = Vec::new();
    body.extend_from_slice(&new_frame(4, &Vec::new()));
    body.extend_from_slice(&new_frame(97, &i32_list_payload(&[2])));

    let r = handle_poll(
        &mut dir,
        &mut cl,
        &"tok-a".to_string(),
        body,
        "10.0.0.9".to_string(),
        geo(),
        3000,
        None,
        vec![],
    );
    assert!(!r.reconnect);
    // the drained response is exactly B's presence frame
    let hb = dir.get_player_by_id(2).unwrap();
    assert_eq!(r.response, dir.presence_packet_at(hb, false));
    // the mailbox is empty and the liveness bookkeeping refreshed
    assert_eq!(mailbox_of(&dir, 1).len(), 0);
    assert_eq!(session_at(&dir, 1).last_active_time, 3000);
    assert_eq!(session_at(&dir, 1).ip, "10.0.0.9");
}

#[test]
fn poll_updates_geo_only_on_address_change() {
    let mut dir = PlayerSessions::new(8);
    let mut cl = ChannelList::new();
    dir.login(session(1, "a", "tok-a"));
    let new_geo = GeoData { country_code: 7, utc_offset: 1, longitude_bits: 9, latitude_bits: 9 };
    // same address: metadata stays as it was
    handle_poll(
        &mut dir,
        &mut cl,
        &"tok-a".to_string(),
        vec![],
        "127.0.0.1".to_string(),
        new_geo,
        3000,
        None,
        vec![],
    );
    assert_eq!(session_at(&dir, 1).geo, geo());
    assert_eq!(session_at(&dir, 1).ip, "127.0.0.1");
    // changed address: both ip and metadata follow
    handle_poll(
        &mut dir,
        &mut cl,
        &"tok-a".to_string(),
        vec![],
        "10.0.0.9".to_string(),
        new_geo,
        3001,
        None,
        vec![],
    );
    assert_eq!(session_at(&dir, 1).geo, new_geo);
    assert_eq!(session_at(&dir, 1).ip, "10.0.0.9");
}

#[test]
fn poll_survives_malformed_frames_in_a_batch() {
    let mut dir = PlayerSessions::new(8);
    let mut cl = ChannelList::new();
    dir.login(session(1, "a", "tok-a"));

    // a malformed presence request (empty payload), then a valid status
    // request: the bad frame fails alone, the batch continues
    let mut body: Vec<u8> = Vec::new();
    body.extend_from_slice(&new_frame(97, &Vec::new()));
    body.extend_from_slice(&new_frame(3, &Vec::new()));
    let r = handle_poll(
        &mut dir,
        &mut cl,
        &"tok-a".to_string(),
        body,
        "127.0.0.1".to_string(),
        geo(),
        3000,
        None,
        vec![],
    );
    assert!(!r.reconnect);
    assert!(!r.response.is_empty());
}
