//! Readers over inbound bytes: field decoding inside one payload, and frame
//! iteration over a whole poll body.  Every read is bounds-checked; a
//! truncated field fails only the current frame, never the process.

use vstd::prelude::*;

use crate::codec::{
    le_u16, le_u32, spec_string_of_bytes, uleb_decode, uleb_end, read_uleb128_at, read_u32_le_at,
};

verus! {

// ---------------------------------------------------------------------------
// Spec-level field reads
// ---------------------------------------------------------------------------

/// One byte at `i`, and the next index.
pub open spec fn spec_read_u8(p: Seq<u8>, i: int) -> Option<(u8, int)> {
    if 0 <= i && i + 1 <= p.len() {
        Some((p[i], i + 1))
    } else {
        None
    }
}

/// Two little-endian bytes at `i` as a signed count.
pub open spec fn spec_read_i16(p: Seq<u8>, i: int) -> Option<(i16, int)> {
    if 0 <= i && i + 2 <= p.len() {
        Some(((le_u16(p.subrange(i, i + 2)) as u16) as i16, i + 2))
    } else {
        None
    }
}

/// Four little-endian bytes at `i`.
pub open spec fn spec_read_u32(p: Seq<u8>, i: int) -> Option<(u32, int)> {
    if 0 <= i && i + 4 <= p.len() {
        Some((le_u32(p.subrange(i, i + 4)) as u32, i + 4))
    } else {
        None
    }
}

/// Four little-endian bytes at `i`, two's complement.
pub open spec fn spec_read_i32(p: Seq<u8>, i: int) -> Option<(i32, int)> {
    match spec_read_u32(p, i) {
        Some(r) => Some((r.0 as i32, r.1)),
        None => None,
    }
}

/// One ULEB128 value at `i`; `None` on a truncated run or a value beyond
/// `u32`.
pub open spec fn spec_read_uleb(p: Seq<u8>, i: int) -> Option<(u32, int)> {
    match uleb_end(p, i) {
        Some(end) => {
            let v = uleb_decode(p.subrange(i, end))->Some_0;
            if v <= u32::MAX {
                Some((v as u32, end))
            } else {
                None
            }
        },
        None => None,
    }
}

/// One string field at `i`: a presence byte other than the sentinel is an
/// empty string; the sentinel is followed by a ULEB128 byte length and the
/// UTF-8 bytes, where invalid UTF-8 decodes to the empty string.
pub open spec fn spec_read_string(p: Seq<u8>, i: int) -> Option<(Seq<char>, int)> {
    if i < 0 || i >= p.len() {
        None
    } else if p[i] != crate::codec::STRING_SENTINEL {
        Some((Seq::empty(), i + 1))
    } else {
        match spec_read_uleb(p, i + 1) {
            Some((n, e)) => {
                if e + n <= p.len() {
                    Some((spec_string_of_bytes(p.subrange(e, e + n)), e + n))
                } else {
                    None
                }
            },
            None => None,
        }
    }
}

/// An integer list at `i`: a signed 2-byte count (non-positive counts give
/// the empty list) followed by that many 4-byte elements.
pub open spec fn spec_read_i32_list(p: Seq<u8>, i: int) -> Option<(Seq<i32>, int)> {
    match spec_read_i16(p, i) {
        Some((c, j)) => {
            if c <= 0 {
                Some((Seq::empty(), j))
            } else if j + 4 * c <= p.len() {
                Some(
                    (
                        Seq::new(c as nat, |k: int| le_u32(p.subrange(j + 4 * k, j + 4 * k + 4)) as u32 as i32),
                        j + 4 * c,
                    ),
                )
            } else {
                None
            }
        },
        None => None,
    }
}

/// A chat message: sender, content, target, sender id.
pub open spec fn spec_read_message(p: Seq<u8>, i: int) -> Option<
    ((Seq<char>, Seq<char>, Seq<char>, i32), int),
> {
    match spec_read_string(p, i) {
        Some((sender, i1)) => match spec_read_string(p, i1) {
            Some((content, i2)) => match spec_read_string(p, i2) {
                Some((target, i3)) => match spec_read_i32(p, i3) {
                    Some((sender_id, i4)) => Some(((sender, content, target, sender_id), i4)),
                    None => None,
                },
                None => None,
            },
            None => None,
        },
        None => None,
    }
}

// ---------------------------------------------------------------------------
// PayloadReader
// ---------------------------------------------------------------------------

/// Marker for a decoded client frame awaiting handling.
#[derive(Debug)]
pub struct ClientPacket {}

/// A chat message read from a payload.
pub struct Message {
    pub sender: String,
    pub content: String,
    pub target: String,
    pub sender_id: i32,
}

/// Cursor over one frame's payload.
pub struct PayloadReader<'a> {
    pub payload: &'a [u8],
    pub index: usize,
}

impl<'a> PayloadReader<'a> {
    pub fn new(payload: &'a [u8]) -> (r: Self)
        ensures
            r.payload@ == payload@,
            r.index == 0,
    {
        PayloadReader { payload, index: 0 }
    }

    pub fn read_u8(&mut self) -> (r: Option<u8>)
        ensures
            final(self).payload@ == old(self).payload@,
            match spec_read_u8(old(self).payload@, old(self).index as int) {
                Some(p) => r == Some(p.0) && final(self).index == p.1,
                None => r is None && final(self).index == old(self).index,
            },
    {
        if self.index < self.payload.len() {
            let b = self.payload[self.index];
            self.index = self.index + 1;
            Some(b)
        } else {
            None
        }
    }

    pub fn read_i16(&mut self) -> (r: Option<i16>)
        ensures
            final(self).payload@ == old(self).payload@,
            match spec_read_i16(old(self).payload@, old(self).index as int) {
                Some(p) => r == Some(p.0) && final(self).index == p.1,
                None => r is None && final(self).index == old(self).index,
            },
    {
        if self.index < self.payload.len() && self.payload.len() - self.index >= 2 {
            let b0 = self.payload[self.index];
            let b1 = self.payload[self.index + 1];
            let v: u16 = b0 as u16 + 0x100 * (b1 as u16);
            proof {
                let sub = self.payload@.subrange(self.index as int, self.index + 2);
                assert(sub[0] == self.payload@[self.index as int]);
                assert(sub[1] == self.payload@[self.index + 1]);
            }
            self.index = self.index + 2;
            Some(v as i16)
        } else {
            None
        }
    }

    pub fn read_u32(&mut self) -> (r: Option<u32>)
        ensures
            final(self).payload@ == old(self).payload@,
            match spec_read_u32(old(self).payload@, old(self).index as int) {
                Some(p) => r == Some(p.0) && final(self).index == p.1,
                None => r is None && final(self).index == old(self).index,
            },
    {
        if self.index < self.payload.len() && self.payload.len() - self.index >= 4 {
            let v = read_u32_le_at(self.payload, self.index);
            self.index = self.index + 4;
            Some(v)
        } else {
            None
        }
    }

    pub fn read_i32(&mut self) -> (r: Option<i32>)
        ensures
            final(self).payload@ == old(self).payload@,
            match spec_read_i32(old(self).payload@, old(self).index as int) {
                Some(p) => r == Some(p.0) && final(self).index == p.1,
                None => r is None && final(self).index == old(self).index,
            },
    {
        match self.read_u32() {
            Some(v) => Some(v as i32),
            None => None,
        }
    }

    pub fn read_uleb128(&mut self) -> (r: Option<u32>)
        ensures
            final(self).payload@ == old(self).payload@,
            match spec_read_uleb(old(self).payload@, old(self).index as int) {
                Some(p) => r == Some(p.0) && final(self).index == p.1,
                None => r is None && final(self).index == old(self).index,
            },
    {
        if self.index > self.payload.len() {
            return None;
        }
        match read_uleb128_at(self.payload, self.index) {
            Some((v, end)) => {
                self.index = end;
                Some(v)
            },
            None => None,
        }
    }

    pub fn read_string(&mut self) -> (r: Option<String>)
        ensures
            final(self).payload@ == old(self).payload@,
            match spec_read_string(old(self).payload@, old(self).index as int) {
                Some(p) => r is Some && r->Some_0@ == p.0 && final(self).index == p.1,
                None => r is None && final(self).index == old(self).index,
            },
    {
        if self.index >= self.payload.len() {
            return None;
        }
        let presence = self.payload[self.index];
        if presence != crate::codec::STRING_SENTINEL {
            self.index = self.index + 1;
            return Some(String::new());
        }
        match read_uleb128_at(self.payload, self.index + 1) {
            Some((n, end)) => {
                if n as usize <= self.payload.len() && end <= self.payload.len() - n as usize {
                    let bytes = vstd::slice::slice_to_vec(
                        &self.payload[end..end + n as usize],
                    );
                    self.index = end + n as usize;
                    match crate::codec::utf8_to_string(bytes) {
                        Some(s) => Some(s),
                        None => Some(String::new()),
                    }
                } else {
                    None
                }
            },
            None => None,
        }
    }

    pub fn read_i32_list(&mut self) -> (r: Option<Vec<i32>>)
        ensures
            final(self).payload@ == old(self).payload@,
            match spec_read_i32_list(old(self).payload@, old(self).index as int) {
                Some(p) => r is Some && r->Some_0@ == p.0 && final(self).index == p.1,
                None => r is None && final(self).index == old(self).index,
            },
    {
        let ghost p = self.payload@;
        let ghost i0 = self.index as int;
        let count = match self.read_i16() {
            Some(c) => c,
            None => {
                return None;
            },
        };
        if count <= 0 {
            return Some(Vec::new());
        }
        let c = count as usize;
        let ghost j = self.index as int;
        if self.index > self.payload.len() || (self.payload.len() - self.index) / 4 < c {
            proof {
                assert(j + 4 * (count as int) > p.len());
            }
            self.index = self.index - 2;
            return None;
        }
        proof {
            assert(j + 4 * (count as int) <= p.len());
        }
        let ghost target = spec_read_i32_list(p, i0)->Some_0.0;
        let mut out: Vec<i32> = Vec::new();
        let mut k: usize = 0;
        while k < c
            invariant
                0 <= k <= c,
                c == count as int,
                count > 0,
                self.payload@ == p,
                self.index == j + 4 * k,
                j + 4 * c <= p.len(),
                p.len() <= usize::MAX,
                target == Seq::new(
                    count as nat,
                    |m: int| le_u32(p.subrange(j + 4 * m, j + 4 * m + 4)) as u32 as i32,
                ),
                out@.len() == k,
                forall|m: int| 0 <= m < k ==> out@[m] == target[m],
            decreases c - k,
    {
            let v = read_u32_le_at(self.payload, self.index);
            out.push(v as i32);
            self.index = self.index + 4;
            k = k + 1;
        }
        proof {
            assert(out@ =~= target);
        }
        Some(out)
    }

    pub fn read_message(&mut self) -> (r: Option<Message>)
        ensures
            final(self).payload@ == old(self).payload@,
            match spec_read_message(old(self).payload@, old(self).index as int) {
                Some(p) => {
                    &&& r is Some
                    &&& r->Some_0.sender@ == p.0.0
                    &&& r->Some_0.content@ == p.0.1
                    &&& r->Some_0.target@ == p.0.2
                    &&& r->Some_0.sender_id == p.0.3
                    &&& final(self).index == p.1
                },
                None => r is None,
            },
    {
        let sender = match self.read_string() {
            Some(s) => s,
            None => {
                return None;
            },
        };
        let content = match self.read_string() {
            Some(s) => s,
            None => {
                return None;
            },
        };
        let target = match self.read_string() {
            Some(s) => s,
            None => {
                return None;
            },
        };
        let sender_id = match self.read_i32() {
            Some(v) => v,
            None => {
                return None;
            },
        };
        Some(Message { sender, content, target, sender_id })
    }
}

// ---------------------------------------------------------------------------
// Packet ids and the frame iterator
// ---------------------------------------------------------------------------

/// Client-to-server packet type ids handled by this server.  Unrecognized
/// wire bytes decode to `Unknown`, never to an error.
#[derive(Clone, Copy, Debug, PartialEq, Eq, Structural)]
pub enum ClientPacketId {
    UserChangeAction,
    UserLogout,
    UserRequestStatusUpdate,
    Ping,
    UserPartLobby,
    UserJoinLobby,
    UserChannelJoin,
    UserFriendAdd,
    UserFriendRemove,
    UserChannelPart,
    UserReceiveUpdates,
    UserSetAwayMessage,
    UserStatsRequest,
    UserPresenceRequest,
    UserPresenceRequestAll,
    UserToggleBlockNonFriendDms,
    Unknown,
}

/// The packet id a wire byte stands for.
pub open spec fn spec_packet_id_of(b: u8) -> ClientPacketId {
    if b == 0 {
        ClientPacketId::UserChangeAction
    } else if b == 2 {
        ClientPacketId::UserLogout
    } else if b == 3 {
        ClientPacketId::UserRequestStatusUpdate
    } else if b == 4 {
        ClientPacketId::Ping
    } else if b == 29 {
        ClientPacketId::UserPartLobby
    } else if b == 30 {
        ClientPacketId::UserJoinLobby
    } else if b == 63 {
        ClientPacketId::UserChannelJoin
    } else if b == 73 {
        ClientPacketId::UserFriendAdd
    } else if b == 74 {
        ClientPacketId::UserFriendRemove
    } else if b == 78 {
        ClientPacketId::UserChannelPart
    } else if b == 79 {
        ClientPacketId::UserReceiveUpdates
    } else if b == 82 {
        ClientPacketId::UserSetAwayMessage
    } else if b == 85 {
        ClientPacketId::UserStatsRequest
    } else if b == 97 {
        ClientPacketId::UserPresenceRequest
    } else if b == 98 {
        ClientPacketId::UserPresenceRequestAll
    } else if b == 99 {
        ClientPacketId::UserToggleBlockNonFriendDms
    } else {
        ClientPacketId::Unknown
    }
}

pub fn packet_id_from_u8(b: u8) -> (r: ClientPacketId)
    ensures
        r == spec_packet_id_of(b),
{
    if b == 0 {
        ClientPacketId::UserChangeAction
    } else if b == 2 {
        ClientPacketId::UserLogout
    } else if b == 3 {
        ClientPacketId::UserRequestStatusUpdate
    } else if b == 4 {
        ClientPacketId::Ping
    } else if b == 29 {
        ClientPacketId::UserPartLobby
    } else if b == 30 {
        ClientPacketId::UserJoinLobby
    } else if b == 63 {
        ClientPacketId::UserChannelJoin
    } else if b == 73 {
        ClientPacketId::UserFriendAdd
    } else if b == 74 {
        ClientPacketId::UserFriendRemove
    } else if b == 78 {
        ClientPacketId::UserChannelPart
    } else if b == 79 {
        ClientPacketId::UserReceiveUpdates
    } else if b == 82 {
        ClientPacketId::UserSetAwayMessage
    } else if b == 85 {
        ClientPacketId::UserStatsRequest
    } else if b == 97 {
        ClientPacketId::UserPresenceRequest
    } else if b == 98 {
        ClientPacketId::UserPresenceRequestAll
    } else if b == 99 {
        ClientPacketId::UserToggleBlockNonFriendDms
    } else {
        ClientPacketId::Unknown
    }
}

/// A counter that stops at its ceiling instead of wrapping.
pub open spec fn spec_bump(c: u16) -> u16 {
    if c == u16::MAX {
        c
    } else {
        (c + 1) as u16
    }
}

/// Iterates over the frames of one poll body.
pub struct PacketReader {
    pub buf: Vec<u8>,
    pub index: usize,
    pub current_packet: ClientPacketId,
    pub payload_length: usize,
    pub finish: bool,
    /// A length field overran the buffer; the remainder of the stream was
    /// abandoned at the failed frame.
    pub truncated: bool,
    pub payload_count: u16,
    pub packet_count: u16,
}

impl PacketReader {
    pub fn from_vec(body: Vec<u8>) -> (r: Self)
        ensures
            r.buf@ == body@,
            r.index == 0,
            r.current_packet == ClientPacketId::Unknown,
            r.payload_length == 0,
            !r.finish,
            !r.truncated,
            r.payload_count == 0,
            r.packet_count == 0,
    {
        PacketReader {
            buf: body,
            index: 0,
            current_packet: ClientPacketId::Unknown,
            payload_length: 0,
            finish: false,
            truncated: false,
            payload_count: 0,
            packet_count: 0,
        }
    }

    /// Rewinds the reader to the start of its buffer.
    pub fn reset(&mut self)
        ensures
            final(self).buf@ == old(self).buf@,
            final(self).index == 0,
            final(self).current_packet == ClientPacketId::Unknown,
            final(self).payload_length == 0,
            !final(self).finish,
            !final(self).truncated,
            final(self).payload_count == 0,
            final(self).packet_count == 0,
    {
        self.finish = false;
        self.truncated = false;
        self.index = 0;
        self.current_packet = ClientPacketId::Unknown;
        self.payload_length = 0;
        self.payload_count = 0;
        self.packet_count = 0;
    }

    /// Yields the next frame: its packet id and payload, if any.
    ///
    /// `None` marks the end of the stream: fewer than a full header left, or
    /// a length field that overruns the buffer (then `truncated` is set and
    /// the stream is abandoned, failing only that frame).
    pub fn next(&mut self) -> (r: Option<(ClientPacketId, Option<Vec<u8>>)>)
        ensures
            final(self).buf@ == old(self).buf@,
            final(self).truncated == old(self).truncated || final(self).truncated,
            ({
                let b = old(self).buf@;
                let i = old(self).index as int;
                if b.len() - i < 7 {
                    &&& r is None
                    &&& final(self).finish
                    &&& final(self).truncated == old(self).truncated
                    &&& final(self).index == old(self).index
                    &&& final(self).current_packet == old(self).current_packet
                    &&& final(self).payload_length == old(self).payload_length
                    &&& final(self).payload_count == old(self).payload_count
                    &&& final(self).packet_count == old(self).packet_count
                } else {
                    let pid = spec_packet_id_of(b[i]);
                    let len = le_u32(b.subrange(i + 3, i + 7)) as int;
                    &&& final(self).current_packet == pid
                    &&& final(self).packet_count == spec_bump(old(self).packet_count)
                    &&& if len == 0 {
                        &&& r == Some((pid, Option::<Vec<u8>>::None))
                        &&& final(self).index == i + 7
                        &&& final(self).finish == old(self).finish
                        &&& final(self).truncated == old(self).truncated
                        &&& final(self).payload_length == old(self).payload_length
                        &&& final(self).payload_count == old(self).payload_count
                    } else if len <= b.len() - (i + 7) {
                        &&& r is Some
                        &&& r->Some_0.0 == pid
                        &&& r->Some_0.1 is Some
                        &&& r->Some_0.1->Some_0@ == b.subrange(i + 7, i + 7 + len)
                        &&& final(self).index == i + 7 + len
                        &&& final(self).finish == old(self).finish
                        &&& final(self).truncated == old(self).truncated
                        &&& final(self).payload_length == len
                        &&& final(self).payload_count == spec_bump(old(self).payload_count)
                    } else {
                        &&& r is None
                        &&& final(self).finish
                        &&& final(self).truncated
                        &&& final(self).index == b.len()
                        &&& final(self).payload_length == old(self).payload_length
                        &&& final(self).payload_count == old(self).payload_count
                    }
                }
            }),
    {
        if self.index > self.buf.len() || self.buf.len() - self.index < 7 {
            self.finish = true;
            return None;
        }
        let i = self.index;
        let id_byte = self.buf[i];
        let length = read_u32_le_at(self.buf.as_slice(), i + 3);
        let packet_id = packet_id_from_u8(id_byte);
        self.index = i + 7;
        if self.packet_count < u16::MAX {
            self.packet_count = self.packet_count + 1;
        }
        self.current_packet = packet_id;
        if length == 0 {
            return Some((packet_id, None));
        }
        let l = length as usize;
        if l > self.buf.len() - self.index {
            self.finish = true;
            self.truncated = true;
            self.index = self.buf.len();
            return None;
        }
        if self.payload_count < u16::MAX {
            self.payload_count = self.payload_count + 1;
        }
        self.payload_length = l;
        let start = self.index;
        let payload = vstd::slice::slice_to_vec(&self.buf.as_slice()[start..start + l]);
        self.index = start + l;
        Some((packet_id, Some(payload)))
    }

    /// Reads just the header of the first frame of `body`.
    pub fn read_header(body: Vec<u8>) -> (r: Option<(ClientPacketId, u32)>)
        ensures
            match r {
                Some(p) => {
                    &&& body@.len() >= 7
                    &&& p.0 == spec_packet_id_of(body@[0])
                    &&& p.1 == le_u32(body@.subrange(3, 7))
                },
                None => body@.len() < 7,
            },
    {
        if body.len() < 7 {
            return None;
        }
        let id = packet_id_from_u8(body[0]);
        let length = read_u32_le_at(body.as_slice(), 3);
        Some((id, length))
    }
}

} // verus!
