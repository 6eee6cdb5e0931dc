//! The focus coordinator: a reducer over a batch of interaction events
//! and the fixed registry of focusable widgets, keeping at most one
//! widget active.

use vstd::prelude::*;

use crate::model::{FocusableWidget, Interaction, InteractionEvent, SetActiveCommand, WidgetId};

verus! {

/// Whether `id` names a widget of the registry.
pub open spec fn registered(widgets: Seq<FocusableWidget>, id: WidgetId) -> bool {
    exists|i: int| 0 <= i < widgets.len() && widgets[i].id == id
}

/// Whether `id` names a widget of the registry.
pub fn is_registered(widgets: &Vec<FocusableWidget>, id: WidgetId) -> (r: bool)
    ensures
        r == registered(widgets@, id),
{
    let n = widgets.len();
    for i in 0..n
        invariant
            n == widgets.len(),
            forall|k: int| 0 <= k < i ==> widgets@[k].id != id,
    {
        if widgets[i].id == id {
            return true;
        }
    }
    false
}

/// The widget owed focus this tick: the widget of the last event in the
/// batch that reports `Pressed` for a registered widget, if any. Events
/// for unregistered widgets and non-press events are ignored.
pub open spec fn pressed_winner(
    events: Seq<InteractionEvent>,
    widgets: Seq<FocusableWidget>,
) -> Option<WidgetId>
    decreases events.len(),
{
    if events.len() == 0 {
        Option::None
    } else if events.last().state is Pressed && registered(widgets, events.last().widget_id) {
        Option::Some(events.last().widget_id)
    } else {
        pressed_winner(events.drop_last(), widgets)
    }
}

/// The commands the coordinator owes for a batch: none when no
/// registered widget was pressed; otherwise one command per registry
/// entry, in registry order, activating exactly the pressed widget.
pub open spec fn reconcile_spec(
    events: Seq<InteractionEvent>,
    widgets: Seq<FocusableWidget>,
) -> Seq<SetActiveCommand> {
    match pressed_winner(events, widgets) {
        Option::Some(winner) => Seq::new(
            widgets.len(),
            |i: int|
                SetActiveCommand { widget: widgets[i].id, active: widgets[i].id == winner },
        ),
        Option::None => Seq::empty(),
    }
}

/// Consumes one tick's batch of interaction events and the widget
/// registry, and emits the commands that make the last-pressed
/// registered widget the only active one. A batch with no press of a
/// registered widget emits nothing, leaving prior focus untouched.
pub fn reconcile(events: &Vec<InteractionEvent>, widgets: &Vec<FocusableWidget>) -> (cmds: Vec<
    SetActiveCommand,
>)
    ensures
        cmds@ == reconcile_spec(events@, widgets@),
{
    let mut winner: Option<WidgetId> = Option::None;
    let n = events.len();
    for i in 0..n
        invariant
            n == events.len(),
            winner == pressed_winner(events@.take(i as int), widgets@),
    {
        proof {
            assert(events@.take(i + 1).drop_last() =~= events@.take(i as int));
            assert(events@.take(i + 1).last() == events@[i as int]);
        }
        let e = events[i];
        if matches!(e.state, Interaction::Pressed) && is_registered(widgets, e.widget_id) {
            winner = Option::Some(e.widget_id);
        }
    }
    proof {
        assert(events@.take(n as int) =~= events@);
    }
    let mut cmds: Vec<SetActiveCommand> = Vec::new();
    match winner {
        Option::Some(winner_id) => {
            let m = widgets.len();
            for i in 0..m
                invariant
                    m == widgets.len(),
                    pressed_winner(events@, widgets@) == Option::Some(winner_id),
                    cmds@.len() == i,
                    forall|k: int|
                        0 <= k < i ==> cmds@[k] == (SetActiveCommand {
                            widget: widgets@[k].id,
                            active: widgets@[k].id == winner_id,
                        }),
            {
                cmds.push(
                    SetActiveCommand {
                        widget: widgets[i].id,
                        active: widgets[i].id == winner_id,
                    },
                );
            }
            proof {
                assert(cmds@ =~= reconcile_spec(events@, widgets@));
            }
        },
        Option::None => {
            proof {
                assert(cmds@ =~= reconcile_spec(events@, widgets@));
            }
        },
    }
    cmds
}

/// The active flag a batch of commands leaves on widget `id`: the last
/// command addressed to `id`, if any.
pub open spec fn command_for(cmds: Seq<SetActiveCommand>, id: WidgetId) -> Option<bool>
    decreases cmds.len(),
{
    if cmds.len() == 0 {
        Option::None
    } else if cmds.last().widget == id {
        Option::Some(cmds.last().active)
    } else {
        command_for(cmds.drop_last(), id)
    }
}

/// The registry after a batch of commands is applied atomically: each
/// widget keeps its id and takes the flag of the last command addressed
/// to it, or keeps its old flag when none is.
pub open spec fn apply_spec(
    widgets: Seq<FocusableWidget>,
    cmds: Seq<SetActiveCommand>,
) -> Seq<FocusableWidget> {
    Seq::new(
        widgets.len(),
        |i: int|
            FocusableWidget {
                id: widgets[i].id,
                active: match command_for(cmds, widgets[i].id) {
                    Option::Some(flag) => flag,
                    Option::None => widgets[i].active,
                },
            },
    )
}

/// The last command of the batch addressed to widget `id`, if any.
fn find_command(cmds: &Vec<SetActiveCommand>, id: WidgetId) -> (r: Option<bool>)
    ensures
        r == command_for(cmds@, id),
{
    let mut r: Option<bool> = Option::None;
    let n = cmds.len();
    for i in 0..n
        invariant
            n == cmds.len(),
            r == command_for(cmds@.take(i as int), id),
    {
        proof {
            assert(cmds@.take(i + 1).drop_last() =~= cmds@.take(i as int));
            assert(cmds@.take(i + 1).last() == cmds@[i as int]);
        }
        if cmds[i].widget == id {
            r = Option::Some(cmds[i].active);
        }
    }
    proof {
        assert(cmds@.take(n as int) =~= cmds@);
    }
    r
}

/// Applies a batch of set-active commands to the registry as one atomic
/// step, returning the registry as it stands after the tick.
pub fn apply_commands(
    widgets: &Vec<FocusableWidget>,
    cmds: &Vec<SetActiveCommand>,
) -> (after: Vec<FocusableWidget>)
    ensures
        after@ == apply_spec(widgets@, cmds@),
{
    let mut after: Vec<FocusableWidget> = Vec::new();
    let n = widgets.len();
    for i in 0..n
        invariant
            n == widgets.len(),
            after@.len() == i,
            forall|k: int| 0 <= k < i ==> after@[k] == apply_spec(widgets@, cmds@)[k],
    {
        let w = widgets[i];
        let active = match find_command(cmds, w.id) {
            Option::Some(flag) => flag,
            Option::None => w.active,
        };
        after.push(FocusableWidget { id: w.id, active });
    }
    proof {
        assert(after@ =~= apply_spec(widgets@, cmds@));
    }
    after
}

/// No two registry entries share a widget id.
pub open spec fn distinct_ids(widgets: Seq<FocusableWidget>) -> bool {
    forall|i: int, j: int|
        0 <= i < j < widgets.len() ==> widgets[i].id != widgets[j].id
}

/// How many registry entries are active.
pub open spec fn num_active(widgets: Seq<FocusableWidget>) -> nat
    decreases widgets.len(),
{
    if widgets.len() == 0 {
        0
    } else {
        num_active(widgets.drop_last()) + if widgets.last().active {
            1nat
        } else {
            0nat
        }
    }
}

/// A registry in which every active flag is down has no active widget.
pub proof fn lemma_all_inactive(widgets: Seq<FocusableWidget>)
    requires
        forall|i: int| 0 <= i < widgets.len() ==> !widgets[i].active,
    ensures
        num_active(widgets) == 0,
    decreases widgets.len(),
{
    if widgets.len() > 0 {
        lemma_all_inactive(widgets.drop_last());
    }
}

/// The flag the reconciled batch leaves on a registered id: up exactly
/// for the winner. Unregistered ids are addressed by no command.
proof fn lemma_reconcile_command_for(
    events: Seq<InteractionEvent>,
    widgets: Seq<FocusableWidget>,
    prefix_len: int,
    winner: WidgetId,
    id: WidgetId,
)
    requires
        pressed_winner(events, widgets) == Option::Some(winner),
        0 <= prefix_len <= widgets.len(),
    ensures
        registered(widgets.take(prefix_len), id) ==> command_for(
            reconcile_spec(events, widgets).take(prefix_len),
            id,
        ) == Option::Some(id == winner),
        !registered(widgets.take(prefix_len), id) ==> command_for(
            reconcile_spec(events, widgets).take(prefix_len),
            id,
        ) is None,
    decreases prefix_len,
{
    let cmds = reconcile_spec(events, widgets);
    if prefix_len == 0 {
        assert(!registered(widgets.take(0), id));
        assert(cmds.take(0).len() == 0);
    } else {
        lemma_reconcile_command_for(events, widgets, prefix_len - 1, winner, id);
        assert(cmds.take(prefix_len).drop_last() =~= cmds.take(prefix_len - 1));
        assert(cmds.take(prefix_len).last() == cmds[prefix_len - 1]);
        assert(widgets.take(prefix_len).drop_last() =~= widgets.take(prefix_len - 1));
        if widgets[prefix_len - 1].id == id {
            assert(registered(widgets.take(prefix_len), id)) by {
                assert(widgets.take(prefix_len)[prefix_len - 1].id == id);
            }
        } else {
            assert(registered(widgets.take(prefix_len), id) == registered(
                widgets.take(prefix_len - 1),
                id,
            )) by {
                if registered(widgets.take(prefix_len), id) {
                    let i = choose|i: int|
                        0 <= i < widgets.take(prefix_len).len() && widgets.take(prefix_len)[i].id
                            == id;
                    assert(widgets.take(prefix_len - 1)[i].id == id);
                }
            }
        }
    }
}

/// Law: the winner takes all. When some registered widget was pressed
/// this tick, applying the reconciled batch leaves every widget's id in
/// place and raises the active flag on exactly the last-pressed widget.
pub proof fn lemma_winner_takes_all(
    events: Seq<InteractionEvent>,
    widgets: Seq<FocusableWidget>,
    winner: WidgetId,
)
    requires
        pressed_winner(events, widgets) == Option::Some(winner),
    ensures
        apply_spec(widgets, reconcile_spec(events, widgets)).len() == widgets.len(),
        forall|i: int|
            0 <= i < widgets.len() ==> apply_spec(widgets, reconcile_spec(events, widgets))[i].id
                == widgets[i].id,
        forall|i: int|
            0 <= i < widgets.len() ==> (apply_spec(
                widgets,
                reconcile_spec(events, widgets),
            )[i].active <==> widgets[i].id == winner),
{
    let cmds = reconcile_spec(events, widgets);
    assert forall|i: int| 0 <= i < widgets.len() implies command_for(cmds, widgets[i].id)
        == Option::Some(widgets[i].id == winner) by {
        lemma_reconcile_command_for(events, widgets, widgets.len() as int, winner, widgets[i].id);
        assert(widgets.take(widgets.len() as int) =~= widgets);
        assert(cmds.take(cmds.len() as int) =~= cmds);
        assert(widgets.take(widgets.len() as int)[i].id == widgets[i].id);
    }
}

/// In a registry with distinct ids whose active flag is up exactly on
/// id `winner`, at most one widget is active.
proof fn lemma_single_active(widgets: Seq<FocusableWidget>, winner: WidgetId)
    requires
        distinct_ids(widgets),
        forall|i: int| 0 <= i < widgets.len() ==> (widgets[i].active <==> widgets[i].id == winner),
    ensures
        num_active(widgets) <= 1,
    decreases widgets.len(),
{
    if widgets.len() > 0 {
        let prefix = widgets.drop_last();
        if widgets.last().active {
            assert(widgets.last().id == winner);
            assert forall|i: int| 0 <= i < prefix.len() implies !prefix[i].active by {
                assert(widgets[i].id != widgets[widgets.len() - 1].id);
            }
            lemma_all_inactive(prefix);
        } else {
            lemma_single_active(prefix, winner);
        }
    }
}

/// Law: focus exclusivity. In a registry with distinct widget ids and at
/// most one active widget, reconciling any batch of interaction events
/// and applying the resulting commands again leaves at most one widget
/// active; so the active set has cardinality at most one after every
/// tick, whatever the batches held.
pub proof fn lemma_focus_exclusivity(events: Seq<InteractionEvent>, widgets: Seq<FocusableWidget>)
    requires
        distinct_ids(widgets),
        num_active(widgets) <= 1,
    ensures
        num_active(apply_spec(widgets, reconcile_spec(events, widgets))) <= 1,
{
    let after = apply_spec(widgets, reconcile_spec(events, widgets));
    match pressed_winner(events, widgets) {
        Option::Some(winner) => {
            lemma_winner_takes_all(events, widgets, winner);
            assert(distinct_ids(after));
            lemma_single_active(after, winner);
        },
        Option::None => {
            lemma_no_press_no_change(events, widgets);
        },
    }
}

/// Law: last pressed wins. When the last event of the batch that
/// presses a registered widget is the one at position `j`, applying the
/// reconciled batch makes that widget — and no other — active,
/// whatever presses came earlier in the batch.
pub proof fn lemma_last_pressed_wins(
    events: Seq<InteractionEvent>,
    widgets: Seq<FocusableWidget>,
    j: int,
)
    requires
        0 <= j < events.len(),
        events[j].state is Pressed,
        registered(widgets, events[j].widget_id),
        forall|k: int|
            j < k < events.len() ==> !(events[k].state is Pressed && registered(
                widgets,
                events[k].widget_id,
            )),
    ensures
        pressed_winner(events, widgets) == Option::Some(events[j].widget_id),
        forall|i: int|
            0 <= i < widgets.len() ==> (apply_spec(
                widgets,
                reconcile_spec(events, widgets),
            )[i].active <==> widgets[i].id == events[j].widget_id),
    decreases events.len(),
{
    if j == events.len() - 1 {
    } else {
        assert(events.drop_last()[j] == events[j]);
        lemma_last_pressed_wins(events.drop_last(), widgets, j);
        assert(pressed_winner(events, widgets) == pressed_winner(events.drop_last(), widgets));
    }
    lemma_winner_takes_all(events, widgets, events[j].widget_id);
}

/// No event of the batch presses a registered widget: no widget is owed
/// focus.
proof fn lemma_no_registered_press_no_winner(
    events: Seq<InteractionEvent>,
    widgets: Seq<FocusableWidget>,
)
    requires
        forall|k: int|
            0 <= k < events.len() ==> !(events[k].state is Pressed && registered(
                widgets,
                events[k].widget_id,
            )),
    ensures
        pressed_winner(events, widgets) is None,
    decreases events.len(),
{
    if events.len() > 0 {
        lemma_no_registered_press_no_winner(events.drop_last(), widgets);
    }
}

/// Law: focus persistence. A batch in which no event presses a
/// registered widget emits no commands, and applying that empty batch
/// leaves the registry exactly as it was: the active widget, if any,
/// stays active.
pub proof fn lemma_focus_persistence(events: Seq<InteractionEvent>, widgets: Seq<FocusableWidget>)
    requires
        forall|k: int|
            0 <= k < events.len() ==> !(events[k].state is Pressed && registered(
                widgets,
                events[k].widget_id,
            )),
    ensures
        reconcile_spec(events, widgets) == Seq::<SetActiveCommand>::empty(),
        apply_spec(widgets, reconcile_spec(events, widgets)) == widgets,
{
    lemma_no_registered_press_no_winner(events, widgets);
    lemma_no_press_no_change(events, widgets);
}

/// With no winner the reconciled batch is empty and changes nothing.
proof fn lemma_no_press_no_change(events: Seq<InteractionEvent>, widgets: Seq<FocusableWidget>)
    requires
        pressed_winner(events, widgets) is None,
    ensures
        apply_spec(widgets, reconcile_spec(events, widgets)) == widgets,
{
    assert(apply_spec(widgets, reconcile_spec(events, widgets)) =~= widgets);
}

} // verus!
