//! Cross-cutting guarantees of the session directory, stated once and
//! proved from the public contracts.

use vstd::prelude::*;

use crate::directory::PlayerSessions;
use crate::session::Session;

verus! {

/// Law: the directory invariant ties the three indices and the counter
/// together — every live session is reachable through the token, id, and
/// name indices; every index entry names a live session; and the counter
/// mirrors the number of token entries.
pub proof fn lemma_directory_invariant(d: PlayerSessions)
    requires
        d.wf(),
    ensures
        forall|h: int|
            #[trigger] d.live(h) ==> d.token_map_has(d.at(h).token@, h) && d.id_map_has(
                d.at(h).id,
                h,
            ) && d.name_map_has(d.at(h).name@, h),
        forall|k: int|
            0 <= k < d.token_map@.len() ==> d.live((#[trigger] d.token_map@[k]).1 as int),
        forall|k: int| 0 <= k < d.id_map@.len() ==> d.live((#[trigger] d.id_map@[k]).1 as int),
        forall|k: int| 0 <= k < d.name_map@.len() ==> d.live((#[trigger] d.name_map@[k]).1 as int),
        d.player_count == d.live_count(),
{
    assert forall|k: int|
        0 <= k < d.token_map@.len() implies d.live((#[trigger] d.token_map@[k]).1 as int) by {
        assert(d.token_entry_ok(k));
    }
    assert forall|k: int|
        0 <= k < d.id_map@.len() implies d.live((#[trigger] d.id_map@[k]).1 as int) by {
        assert(d.id_entry_ok(k));
    }
    assert forall|k: int|
        0 <= k < d.name_map@.len() implies d.live((#[trigger] d.name_map@[k]).1 as int) by {
        assert(d.name_entry_ok(k));
    }
}

/// Law: logging a fresh session in and then out by its token restores the
/// live count to its prior value and removes the session from all three
/// indices, while every other session's index membership is untouched.
///
/// `mid` stands to `pre` as `login` leaves the directory, and `post`
/// stands to `mid` as `logout` of the same token leaves it; the
/// hypotheses are those functions' contracts.
pub proof fn lemma_login_logout_restores(
    pre: PlayerSessions,
    mid: PlayerSessions,
    post: PlayerSessions,
    s: Session,
)
    requires
        pre.wf(),
        s.wf(),
        !pre.has_token(s.token@),
        !pre.has_id(s.id),
        !pre.has_name(s.name@),
        (s.u_name matches Some(u) ==> !pre.has_name(u@)),
        // after login(s)
        mid.wf(),
        mid.live_count() == pre.live_count() + 1,
        mid.has_token(s.token@),
        mid.session_of_token(s.token@) == s,
        forall|t: Seq<char>| t != s.token@ ==> (mid.has_token(t) <==> pre.has_token(t)),
        forall|i: i32| i != s.id ==> (mid.has_id(i) <==> pre.has_id(i)),
        forall|n: Seq<char>|
            mid.has_name(n) <==> (pre.has_name(n) || n == s.name@ || (s.u_name matches Some(u) && n
                == u@)),
        // after logout(s.token)
        post.wf(),
        post.live_count() == mid.live_count() - 1,
        !post.has_token(s.token@),
        !post.has_id(s.id),
        !post.has_name(s.name@),
        (s.u_name matches Some(u) ==> !post.has_name(u@)),
        forall|t: Seq<char>| t != s.token@ ==> (post.has_token(t) <==> mid.has_token(t)),
        forall|i: i32| i != s.id ==> (post.has_id(i) <==> mid.has_id(i)),
        forall|n: Seq<char>|
            n != s.name@ && !(s.u_name matches Some(u) && n == u@) ==> (post.has_name(n)
                <==> mid.has_name(n)),
    ensures
        post.live_count() == pre.live_count(),
        !post.has_token(s.token@),
        !post.has_id(s.id),
        !post.has_name(s.name@),
        (s.u_name matches Some(u) ==> !post.has_name(u@)),
        forall|t: Seq<char>| post.has_token(t) <==> pre.has_token(t),
        forall|i: i32| post.has_id(i) <==> pre.has_id(i),
        forall|n: Seq<char>| post.has_name(n) <==> pre.has_name(n),
{
}

/// Law: a broadcast appends one frame to every live session's mailbox; a
/// subsequent drain of any one session observes its prior frames first,
/// in order, and then the broadcast exactly once, last.
///
/// `post` stands to `pre` as `enqueue_all(packet)` leaves the directory;
/// the hypothesis is that function's contract, and dequeues read the
/// mailbox front to back.
pub proof fn lemma_enqueue_all_fifo(
    pre: PlayerSessions,
    post: PlayerSessions,
    packet: Seq<u8>,
    h: int,
)
    requires
        pre.wf(),
        forall|g: int|
            #[trigger] pre.live(g) ==> post.live(g) && post.at(g).mailbox_view() == pre.at(
                g,
            ).mailbox_view().push(packet),
        pre.live(h),
    ensures
        post.at(h).mailbox_view().len() == pre.at(h).mailbox_view().len() + 1,
        forall|j: int|
            0 <= j < pre.at(h).mailbox_view().len() ==> post.at(h).mailbox_view()[j] == pre.at(
                h,
            ).mailbox_view()[j],
        post.at(h).mailbox_view().last() == packet,
        !pre.at(h).mailbox_view().contains(packet) ==> forall|j: int|
            0 <= j < post.at(h).mailbox_view().len() - 1 ==> post.at(h).mailbox_view()[j]
                != packet,
{
    let mb0 = pre.at(h).mailbox_view();
    let mb1 = post.at(h).mailbox_view();
    assert(mb1 == mb0.push(packet));
    if !mb0.contains(packet) {
        assert forall|j: int| 0 <= j < mb1.len() - 1 implies mb1[j] != packet by {
            assert(mb1[j] == mb0[j]);
            if mb0[j] == packet {
                assert(mb0.contains(packet));
            }
        }
    }
}

} // verus!
