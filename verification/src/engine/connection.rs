//! Which connection belongs to the character that is followed.

use crate::capture::server::{Server, ServerView};
use crate::engine::encounter::{conn_views, server_view, Encounter, EncounterView};
use crate::protocol::opcodes::Pkt;
use vstd::prelude::*;

verus! {

/// The place at `i` or later of a connection in the list, or the length of the list.
pub open spec fn conn_from(conns: Seq<(ServerView, i64)>, c: ServerView, i: int) -> int
    decreases conns.len() - i,
{
    if i < 0 || i >= conns.len() {
        conns.len() as int
    } else if conns[i].0 == c {
        i
    } else {
        conn_from(conns, c, i + 1)
    }
}

/// The character of a connection, where it is known.
pub open spec fn conn_uid(conns: Seq<(ServerView, i64)>, c: ServerView) -> Option<i64> {
    let i = conn_from(conns, c, 0);
    if 0 <= i < conns.len() {
        Some(conns[i].1)
    } else {
        None
    }
}

/// The list after the character of a connection was learned.
pub open spec fn conn_learned(
    conns: Seq<(ServerView, i64)>,
    c: ServerView,
    uid: i64,
) -> Seq<(ServerView, i64)> {
    let i = conn_from(conns, c, 0);
    if 0 <= i < conns.len() {
        conns.update(i, (c, uid))
    } else {
        conns.push((c, uid))
    }
}

/// Whether a connection is the active one, or none is active yet.
pub open spec fn active_or_open(active: Option<ServerView>, c: ServerView) -> bool {
    match active {
        Some(a) => a == c,
        None => true,
    }
}

/// Whether messages of a connection are taken: those of the connection of the chosen character,
/// else those of the active connection; all of them while none is active.
pub open spec fn accepts(v: EncounterView, conn: Option<ServerView>, selected: Option<i64>) -> bool {
    match conn {
        None => true,
        Some(c) => match (conn_uid(v.conns, c), selected) {
            (Some(uid), Some(chosen)) => uid == chosen,
            _ => active_or_open(v.active, c),
        },
    }
}

/// The encounter after a message was let in: the connection of the chosen character is the active
/// one.
pub open spec fn let_in(
    v: EncounterView,
    conn: Option<ServerView>,
    selected: Option<i64>,
) -> EncounterView {
    match (conn, selected) {
        (Some(c), Some(chosen)) => if conn_uid(v.conns, c) == Some(chosen) {
            EncounterView { active: Some(c), ..v }
        } else {
            v
        },
        _ => v,
    }
}

/// The place of a connection in the list, or the length of the list.
fn find_conn(conns: &Vec<(Server, i64)>, c: &Server) -> (i: usize)
    ensures
        i == conn_from(conn_views(conns@), c@, 0),
        i <= conns@.len(),
        i < conns@.len() ==> conn_views(conns@)[i as int].0 == c@,
{
    let ghost views = conn_views(conns@);
    let n: usize = conns.len();
    let mut i: usize = 0;
    while i < n
        invariant
            n == conns@.len(),
            views == conn_views(conns@),
            i <= n,
            conn_from(views, c@, 0) == conn_from(views, c@, i as int),
        decreases n - i,
    {
        if conns[i].0.same(c) {
            return i;
        }
        i += 1;
    }
    n
}

/// Whether messages of a connection are taken.
pub fn is_accepted(encounter: &Encounter, conn: Option<Server>, selected: Option<i64>) -> (b: bool)
    ensures
        b == accepts(encounter@, server_view(conn), selected),
{
    let c: Server = match conn {
        Some(c) => c,
        None => {
            return true;
        },
    };
    let i: usize = find_conn(&encounter.conn_to_uid, &c);
    if i < encounter.conn_to_uid.len() {
        let uid: i64 = encounter.conn_to_uid[i].1;
        assert(conn_uid(encounter@.conns, c@) == Some(uid));
        if let Some(chosen) = selected {
            return uid == chosen;
        }
    }
    match &encounter.active_connection {
        Some(active) => c.same(active),
        None => true,
    }
}

/// Whether a message is taken. The connection of the chosen character becomes the active one.
pub fn should_accept(
    encounter: &mut Encounter,
    conn: Option<Server>,
    op: Pkt,
    selected: Option<i64>,
) -> (b: bool)
    ensures
        ({
            let always = op == Pkt::ServerHandover || op == Pkt::SocialEnvelope;
            let c = match conn {
                Some(c) => Some(c@),
                None => None,
            };
            &&& b == (always || accepts(old(encounter)@, c, selected))
            &&& final(encounter)@ == if always {
                old(encounter)@
            } else {
                let_in(old(encounter)@, c, selected)
            }
        }),
{
    if op == Pkt::ServerHandover || op == Pkt::SocialEnvelope {
        return true;
    }
    let c: Server = match conn {
        Some(c) => c,
        None => {
            return true;
        },
    };
    let ghost v = encounter@;
    let i: usize = find_conn(&encounter.conn_to_uid, &c);
    if i < encounter.conn_to_uid.len() {
        let uid: i64 = encounter.conn_to_uid[i].1;
        assert(conn_uid(v.conns, c@) == Some(uid));
        if let Some(chosen) = selected {
            if uid == chosen {
                encounter.active_connection = Some(c);
                return true;
            }
            return false;
        }
    }
    match &encounter.active_connection {
        Some(active) => c.same(active),
        None => true,
    }
}

/// Learns the character of a connection.
pub fn learn_conn(conns: &mut Vec<(Server, i64)>, c: Server, uid: i64)
    ensures
        conn_views(final(conns)@) == conn_learned(conn_views(old(conns)@), c@, uid),
{
    let ghost before = conn_views(conns@);
    let i: usize = find_conn(conns, &c);
    if i < conns.len() {
        conns.set(i, (c, uid));
        assert(conn_views(conns@) =~= before.update(i as int, (c@, uid)));
    } else {
        conns.push((c, uid));
        assert(conn_views(conns@) =~= before.push((c@, uid)));
    }
}

/// What was learned of a connection is known, and nothing else changes.
pub proof fn law_learned_is_known(
    conns: Seq<(ServerView, i64)>,
    c: ServerView,
    uid: i64,
    other: ServerView,
)
    ensures
        conn_uid(conn_learned(conns, c, uid), c) == Some(uid),
        other != c ==> conn_uid(conn_learned(conns, c, uid), other) == conn_uid(conns, other),
{
    let after = conn_learned(conns, c, uid);
    lemma_conn_from(conns, c, 0);
    lemma_conn_from(after, c, 0);
    lemma_conn_from(conns, other, 0);
    lemma_conn_from(after, other, 0);
    let i = conn_from(conns, c, 0);
    assert(after[i] == (c, uid));
    if other != c {
        let j = conn_from(conns, other, 0);
        let k = conn_from(after, other, 0);
        assert(j < conns.len() ==> after[j] == conns[j]);
        assert(k < after.len() ==> k != i);
        if k < after.len() {
            assert(after[k].0 == other);
            assert(k < conns.len() && conns[k] == after[k]);
        }
    }
}

/// The first place of a connection.
proof fn lemma_conn_from(conns: Seq<(ServerView, i64)>, c: ServerView, i: int)
    requires
        0 <= i <= conns.len(),
    ensures
        i <= conn_from(conns, c, i) <= conns.len(),
        conn_from(conns, c, i) < conns.len() ==> conns[conn_from(conns, c, i)].0 == c,
        forall|j: int| i <= j < conn_from(conns, c, i) ==> (#[trigger] conns[j]).0 != c,
    decreases conns.len() - i,
{
    if i < conns.len() && conns[i].0 != c {
        lemma_conn_from(conns, c, i + 1);
    }
}

} // verus!
