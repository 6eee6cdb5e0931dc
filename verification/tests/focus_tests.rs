use debug_overlay::focus::{apply_commands, reconcile};
use debug_overlay::model::{FocusableWidget, Interaction, InteractionEvent};

fn widget(id: u64, active: bool) -> FocusableWidget {
    FocusableWidget { id, active }
}

fn event(widget_id: u64, state: Interaction) -> InteractionEvent {
    InteractionEvent { widget_id, state }
}

fn active_ids(widgets: &[FocusableWidget]) -> Vec<u64> {
    widgets.iter().filter(|w| w.active).map(|w| w.id).collect()
}

#[test]
fn press_activates_exactly_the_pressed_widget() {
    let widgets = vec![widget(1, false), widget(2, false)];
    let events = vec![event(1, Interaction::Pressed)];
    let cmds = reconcile(&events, &widgets);
    assert_eq!(cmds.len(), 2);
    assert_eq!(cmds[0].widget, 1);
    assert!(cmds[0].active);
    assert_eq!(cmds[1].widget, 2);
    assert!(!cmds[1].active);

    let after = apply_commands(&widgets, &cmds);
    assert_eq!(active_ids(&after), vec![1]);
}

#[test]
fn three_tick_session() {
    // Widgets start inactive. Tick 1: press of widget 1 focuses it.
    // Tick 2: a hover changes nothing. Tick 3: press of widget 2 moves
    // the focus there.
    let mut widgets = vec![widget(1, false), widget(2, false)];

    let tick1 = vec![event(1, Interaction::Pressed)];
    widgets = apply_commands(&widgets, &reconcile(&tick1, &widgets));
    assert_eq!(active_ids(&widgets), vec![1]);

    let tick2 = vec![event(1, Interaction::Hovered)];
    widgets = apply_commands(&widgets, &reconcile(&tick2, &widgets));
    assert_eq!(active_ids(&widgets), vec![1]);

    let tick3 = vec![event(2, Interaction::Pressed)];
    widgets = apply_commands(&widgets, &reconcile(&tick3, &widgets));
    assert_eq!(active_ids(&widgets), vec![2]);
}

#[test]
fn last_pressed_wins_within_a_batch() {
    let widgets = vec![widget(1, false), widget(2, false), widget(3, false)];
    let events = vec![event(1, Interaction::Pressed), event(2, Interaction::Pressed)];
    let after = apply_commands(&widgets, &reconcile(&events, &widgets));
    assert_eq!(active_ids(&after), vec![2]);
}

#[test]
fn no_press_keeps_prior_focus() {
    let widgets = vec![widget(1, true), widget(2, false)];
    let events = vec![event(2, Interaction::Hovered), event(1, Interaction::Idle)];
    let cmds = reconcile(&events, &widgets);
    assert_eq!(cmds.len(), 0);
    let after = apply_commands(&widgets, &cmds);
    assert_eq!(active_ids(&after), vec![1]);
}

#[test]
fn empty_batch_changes_nothing() {
    let widgets = vec![widget(1, true), widget(2, false)];
    let after = apply_commands(&widgets, &reconcile(&Vec::new(), &widgets));
    assert_eq!(after, widgets);
}

#[test]
fn press_of_unregistered_widget_is_ignored() {
    // Widget 9 is not in the registry: its press is a defensive no-op and
    // the earlier press of widget 1 still wins the batch.
    let widgets = vec![widget(1, false), widget(2, true)];
    let events = vec![event(1, Interaction::Pressed), event(9, Interaction::Pressed)];
    let after = apply_commands(&widgets, &reconcile(&events, &widgets));
    assert_eq!(active_ids(&after), vec![1]);
}

#[test]
fn only_unregistered_presses_keep_prior_focus() {
    let widgets = vec![widget(1, true), widget(2, false)];
    let events = vec![event(9, Interaction::Pressed)];
    let cmds = reconcile(&events, &widgets);
    assert_eq!(cmds.len(), 0);
    let after = apply_commands(&widgets, &cmds);
    assert_eq!(active_ids(&after), vec![1]);
}

#[test]
fn at_most_one_widget_is_active_after_each_batch() {
    // Ticks with presses in arbitrary widget order never leave two
    // widgets active at once.
    let mut widgets = vec![widget(1, false), widget(2, false), widget(3, false)];
    let batches = vec![
        vec![event(3, Interaction::Pressed), event(1, Interaction::Pressed)],
        vec![event(2, Interaction::Hovered)],
        vec![event(2, Interaction::Pressed), event(3, Interaction::Pressed)],
        vec![],
        vec![event(1, Interaction::Idle), event(1, Interaction::Pressed)],
    ];
    for batch in &batches {
        widgets = apply_commands(&widgets, &reconcile(batch, &widgets));
        assert!(active_ids(&widgets).len() <= 1);
    }
    assert_eq!(active_ids(&widgets), vec![1]);
}
