//! What a message tells the follower of effects to do.

use crate::capture::binary_reader::copy_bytes;
use crate::protocol::messages::BuffEvent;
use vstd::prelude::*;

verus! {

/// The event that an effect ended.
pub const BUFF_EVENT_REMOVE: i32 = 2;

/// The content of an event: an effect began.
pub const LOGIC_EFFECT_ADD_BUFF: i32 = 18;

/// The content of an event: an effect changed.
pub const LOGIC_EFFECT_BUFF_CHANGE: i32 = 19;

/// What to do with the effects that are followed. Contents are not decoded.
#[derive(Debug, Clone)]
pub enum BuffAction {
    /// The whole state of an effect.
    Full(Vec<u8>),
    /// A change of an effect.
    Tick(Vec<u8>),
    /// An effect on the own character.
    Effect { uid: i64, raw: Vec<u8> },
    /// An effect began.
    Add { uid: i64, buff_uuid: i32, raw: Vec<u8> },
    /// An effect changed.
    Change { uid: i64, buff_uuid: i32, raw: Vec<u8> },
    /// An effect ended.
    Remove { uid: i64, buff_uuid: i32 },
    /// All effects are forgotten.
    Clear,
}

pub enum BuffActionView {
    Full(Seq<u8>),
    Tick(Seq<u8>),
    Effect { uid: i64, raw: Seq<u8> },
    Add { uid: i64, buff_uuid: i32, raw: Seq<u8> },
    Change { uid: i64, buff_uuid: i32, raw: Seq<u8> },
    Remove { uid: i64, buff_uuid: i32 },
    Clear,
}

impl View for BuffAction {
    type V = BuffActionView;

    open spec fn view(&self) -> BuffActionView {
        match *self {
            BuffAction::Full(raw) => BuffActionView::Full(raw@),
            BuffAction::Tick(raw) => BuffActionView::Tick(raw@),
            BuffAction::Effect { uid, raw } => BuffActionView::Effect { uid, raw: raw@ },
            BuffAction::Add { uid, buff_uuid, raw } => BuffActionView::Add {
                uid,
                buff_uuid,
                raw: raw@,
            },
            BuffAction::Change { uid, buff_uuid, raw } => BuffActionView::Change {
                uid,
                buff_uuid,
                raw: raw@,
            },
            BuffAction::Remove { uid, buff_uuid } => BuffActionView::Remove { uid, buff_uuid },
            BuffAction::Clear => BuffActionView::Clear,
        }
    }
}

/// Actions without how they are held.
pub open spec fn action_views(list: Seq<BuffAction>) -> Seq<BuffActionView> {
    list.map_values(|a: BuffAction| a@)
}

/// What an event of a player tells to do: an event without content tells nothing, unless it is that
/// an effect ended.
pub open spec fn event_actions(uid: i64, event: BuffEvent) -> Seq<BuffActionView> {
    if event.event_type == BUFF_EVENT_REMOVE {
        seq![BuffActionView::Remove { uid, buff_uuid: event.buff_uuid }]
    } else {
        match event.payload {
            None => seq![],
            Some(p) => if p.detail_raw@.len() == 0 {
                seq![]
            } else if p.buff_type == LOGIC_EFFECT_ADD_BUFF {
                seq![
                    BuffActionView::Add {
                        uid,
                        buff_uuid: event.buff_uuid,
                        raw: p.detail_raw@,
                    },
                ]
            } else if p.buff_type == LOGIC_EFFECT_BUFF_CHANGE {
                seq![
                    BuffActionView::Change {
                        uid,
                        buff_uuid: event.buff_uuid,
                        raw: p.detail_raw@,
                    },
                ]
            } else {
                seq![]
            },
        }
    }
}

/// What events of a player tell to do.
pub open spec fn events_actions(uid: i64, events: Seq<BuffEvent>) -> Seq<BuffActionView>
    decreases events.len(),
{
    if events.len() == 0 {
        seq![]
    } else {
        events_actions(uid, events.drop_last()) + event_actions(uid, events.last())
    }
}

/// Adds an action.
pub(crate) fn push_action(list: &mut Vec<BuffAction>, action: BuffAction)
    ensures
        action_views(final(list)@) == action_views(old(list)@).push(action@),
{
    let ghost before = list@;
    let ghost view = action@;
    list.push(action);
    assert(action_views(list@) =~= action_views(before).push(view));
}

/// Adds what an event tells to do.
fn push_event(list: &mut Vec<BuffAction>, uid: i64, event: &BuffEvent)
    ensures
        action_views(final(list)@) == action_views(old(list)@) + event_actions(uid, *event),
{
    let ghost before = action_views(list@);
    let buff_uuid: i32 = event.buff_uuid;
    if event.event_type == BUFF_EVENT_REMOVE {
        push_action(list, BuffAction::Remove { uid, buff_uuid });
    } else if let Some(p) = &event.payload {
        if p.detail_raw.len() > 0 {
            if p.buff_type == LOGIC_EFFECT_ADD_BUFF {
                let raw: Vec<u8> = copy_bytes(&p.detail_raw);
                push_action(list, BuffAction::Add { uid, buff_uuid, raw });
            } else if p.buff_type == LOGIC_EFFECT_BUFF_CHANGE {
                let raw: Vec<u8> = copy_bytes(&p.detail_raw);
                push_action(list, BuffAction::Change { uid, buff_uuid, raw });
            }
        }
    }
    assert(action_views(list@) =~= before + event_actions(uid, *event));
}

/// Adds what events of a player tell to do.
pub(crate) fn push_events(list: &mut Vec<BuffAction>, uid: i64, events: &Vec<BuffEvent>)
    ensures
        action_views(final(list)@) == action_views(old(list)@) + events_actions(uid, events@),
{
    let ghost before = action_views(list@);
    let n: usize = events.len();
    assert(events@.take(0) =~= Seq::<BuffEvent>::empty());
    assert(action_views(list@) =~= before + events_actions(uid, events@.take(0)));
    for i in 0..n
        invariant
            n == events@.len(),
            action_views(list@) == before + events_actions(uid, events@.take(i as int)),
    {
        proof {
            let part = events@.take(i + 1);
            assert(part.drop_last() =~= events@.take(i as int));
        }
        push_event(list, uid, &events[i]);
        assert(action_views(list@) =~= before + events_actions(uid, events@.take(i + 1)));
    }
    assert(events@.take(n as int) =~= events@);
}

} // verus!
