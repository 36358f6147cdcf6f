//! Server-to-client packet encoders.  Each returns one complete frame whose
//! exact bytes are pinned by a spec function over the frame format.

use vstd::prelude::*;

use crate::codec::{
    le_bytes_u16, le_bytes_u32, spec_frame, spec_string_field, new_frame, uleb_encode,
    write_string_field, write_u16_le, write_u32_le,
};

verus! {

/// Server-to-client packet id of a login reply.
pub const PACKET_LOGIN_REPLY: u8 = 5;

/// Server-to-client packet id of a player stats update.
pub const PACKET_USER_STATS: u8 = 11;

/// Server-to-client packet id of a player logout notice.
pub const PACKET_USER_LOGOUT: u8 = 12;

/// Server-to-client packet id of a notification message.
pub const PACKET_NOTIFICATION: u8 = 24;

/// Server-to-client packet id of a successful channel join.
pub const PACKET_CHANNEL_JOIN_SUCCESS: u8 = 64;

/// Server-to-client packet id of a channel information record.
pub const PACKET_CHANNEL_INFO: u8 = 65;

/// Server-to-client packet id of a player presence record.
pub const PACKET_USER_PRESENCE: u8 = 83;

/// Server-to-client packet id of a server-restart notice.
pub const PACKET_BANCHO_RESTART: u8 = 86;

/// The server's chosen cap on the UTF-8 byte length of a text field that
/// is re-encoded into outbound packets.  Some finite bound is forced by
/// the frame format (a payload length must fit its four-byte field); this
/// server fixes it at eight kibibytes, far beyond any field a client
/// legitimately sends, and the handlers reject longer fields as invalid.
pub const MAX_STRING_FIELD_BYTES: usize = 8192;

/// Canonical ULEB128 of a value below `2^32` takes at most five bytes.
pub proof fn lemma_uleb_len_u32(v: nat)
    requires
        v <= u32::MAX,
    ensures
        uleb_encode(v).len() <= 5,
{
    reveal_with_fuel(uleb_encode, 6);
    if v >= 128 {
        let v1 = v / 128;
        assert(v1 < 0x2000000);
        assert(uleb_encode(v).len() == 1 + uleb_encode(v1).len());
        if v1 >= 128 {
            let v2 = v1 / 128;
            assert(v2 < 0x40000);
            assert(uleb_encode(v1).len() == 1 + uleb_encode(v2).len());
            if v2 >= 128 {
                let v3 = v2 / 128;
                assert(v3 < 0x800);
                assert(uleb_encode(v2).len() == 1 + uleb_encode(v3).len());
                if v3 >= 128 {
                    let v4 = v3 / 128;
                    assert(v4 < 0x10);
                    assert(uleb_encode(v3).len() == 1 + uleb_encode(v4).len());
                    assert(uleb_encode(v4).len() == 1);
                }
            }
        }
    }
}

/// A string field encoded for a bounded string stays small.
pub proof fn lemma_string_field_len(s: Seq<char>)
    requires
        vstd::utf8::encode_utf8(s).len() <= MAX_STRING_FIELD_BYTES,
    ensures
        spec_string_field(s).len() <= MAX_STRING_FIELD_BYTES + 6,
{
    lemma_uleb_len_u32(vstd::utf8::encode_utf8(s).len() as nat);
}

/// The notification packet carrying `msg`.
pub open spec fn spec_notification(msg: Seq<char>) -> Seq<u8> {
    spec_frame(PACKET_NOTIFICATION, spec_string_field(msg))
}

pub fn notification(msg: &str) -> (r: Vec<u8>)
    requires
        vstd::utf8::encode_utf8(msg@).len() <= MAX_STRING_FIELD_BYTES,
    ensures
        r@ == spec_notification(msg@),
{
    let mut payload: Vec<u8> = Vec::new();
    write_string_field(&mut payload, msg);
    proof {
        lemma_string_field_len(msg@);
        assert(payload@ =~= spec_string_field(msg@));
    }
    new_frame(PACKET_NOTIFICATION, &payload)
}

/// The login reply packet carrying a user id or failure code.
pub open spec fn spec_login_reply(code: i32) -> Seq<u8> {
    spec_frame(PACKET_LOGIN_REPLY, le_bytes_u32(code as u32))
}

pub fn login_reply(code: i32) -> (r: Vec<u8>)
    ensures
        r@ == spec_login_reply(code),
{
    let mut payload: Vec<u8> = Vec::new();
    write_u32_le(&mut payload, code as u32);
    proof {
        assert(payload@ =~= le_bytes_u32(code as u32));
    }
    new_frame(PACKET_LOGIN_REPLY, &payload)
}

/// The restart notice telling the client to reconnect after `millis`.
pub open spec fn spec_bancho_restart(millis: u32) -> Seq<u8> {
    spec_frame(PACKET_BANCHO_RESTART, le_bytes_u32(millis))
}

pub fn bancho_restart(millis: u32) -> (r: Vec<u8>)
    ensures
        r@ == spec_bancho_restart(millis),
{
    let mut payload: Vec<u8> = Vec::new();
    write_u32_le(&mut payload, millis);
    proof {
        assert(payload@ =~= le_bytes_u32(millis));
    }
    new_frame(PACKET_BANCHO_RESTART, &payload)
}

/// The logout notice for the player with `user_id`.
pub open spec fn spec_user_logout(user_id: i32) -> Seq<u8> {
    spec_frame(PACKET_USER_LOGOUT, le_bytes_u32(user_id as u32) + seq![0u8])
}

pub fn user_logout_packet(user_id: i32) -> (r: Vec<u8>)
    ensures
        r@ == spec_user_logout(user_id),
{
    let mut payload: Vec<u8> = Vec::new();
    write_u32_le(&mut payload, user_id as u32);
    payload.push(0);
    proof {
        assert(payload@ =~= le_bytes_u32(user_id as u32) + seq![0u8]);
    }
    new_frame(PACKET_USER_LOGOUT, &payload)
}

/// The acknowledgement that the client joined `name`.
pub open spec fn spec_channel_join_success(name: Seq<char>) -> Seq<u8> {
    spec_frame(PACKET_CHANNEL_JOIN_SUCCESS, spec_string_field(name))
}

pub fn channel_join_success(name: &str) -> (r: Vec<u8>)
    requires
        vstd::utf8::encode_utf8(name@).len() <= MAX_STRING_FIELD_BYTES,
    ensures
        r@ == spec_channel_join_success(name@),
{
    let mut payload: Vec<u8> = Vec::new();
    write_string_field(&mut payload, name);
    proof {
        lemma_string_field_len(name@);
        assert(payload@ =~= spec_string_field(name@));
    }
    new_frame(PACKET_CHANNEL_JOIN_SUCCESS, &payload)
}

/// The channel information record: name, title, member count.
pub open spec fn spec_channel_info(name: Seq<char>, title: Seq<char>, members: u16) -> Seq<u8> {
    spec_frame(
        PACKET_CHANNEL_INFO,
        spec_string_field(name) + spec_string_field(title) + le_bytes_u16(members),
    )
}

pub fn channel_info(name: &str, title: &str, members: u16) -> (r: Vec<u8>)
    requires
        vstd::utf8::encode_utf8(name@).len() <= MAX_STRING_FIELD_BYTES,
        vstd::utf8::encode_utf8(title@).len() <= MAX_STRING_FIELD_BYTES,
    ensures
        r@ == spec_channel_info(name@, title@, members),
{
    let mut payload: Vec<u8> = Vec::new();
    write_string_field(&mut payload, name);
    write_string_field(&mut payload, title);
    write_u16_le(&mut payload, members);
    proof {
        lemma_string_field_len(name@);
        lemma_string_field_len(title@);
        assert(payload@ =~= spec_string_field(name@) + spec_string_field(title@) + le_bytes_u16(
            members,
        ));
    }
    new_frame(PACKET_CHANNEL_INFO, &payload)
}

} // verus!
