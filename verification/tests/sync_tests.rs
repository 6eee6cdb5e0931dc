use debug_overlay::model::{AppendChildCommand, Category, DisplayEntity, RootRegistry};
use debug_overlay::sync::{labels_under, sync, LABEL_FONT_SIZE};

fn entity(id: u64, name: &str, category: Category) -> DisplayEntity {
    DisplayEntity { id, display_name: String::from(name), category }
}

fn both_roots() -> RootRegistry {
    RootRegistry { character_root: Some(1), item_root: Some(2) }
}

#[test]
fn one_batch_routes_each_category() {
    // Registry roots {Character: 1, Item: 2}; one batch of three entities.
    let batch = vec![
        entity(10, "Toby", Category::Character),
        entity(11, "Spoon", Category::Item),
        entity(12, "Swann", Category::Character),
    ];
    let cmds = sync(&batch, &both_roots());
    assert_eq!(cmds.len(), 3);

    let characters = labels_under(&cmds, 1);
    assert_eq!(characters, vec![String::from("Toby"), String::from("Swann")]);
    let items = labels_under(&cmds, 2);
    assert_eq!(items, vec![String::from("Spoon")]);
}

#[test]
fn labels_keep_delivery_order() {
    let batch = vec![
        entity(1, "Dan", Category::Character),
        entity(2, "Tamara", Category::Character),
        entity(3, "Niamh", Category::Character),
        entity(4, "Erin", Category::Character),
    ];
    let cmds = sync(&batch, &both_roots());
    assert_eq!(
        labels_under(&cmds, 1),
        vec![
            String::from("Dan"),
            String::from("Tamara"),
            String::from("Niamh"),
            String::from("Erin"),
        ]
    );
}

#[test]
fn batching_granularity_does_not_matter() {
    // Delivering one entity per tick emits the same commands, in the same
    // order, as delivering all of them in one batch.
    let all = vec![
        entity(10, "Toby", Category::Character),
        entity(11, "Spoon", Category::Item),
        entity(12, "Swann", Category::Character),
    ];
    let roots = both_roots();
    let one_batch = sync(&all, &roots);

    let mut per_tick: Vec<AppendChildCommand> = Vec::new();
    for e in &all {
        per_tick.extend(sync(&vec![e.clone()], &roots));
    }

    assert_eq!(one_batch.len(), per_tick.len());
    for (a, b) in one_batch.iter().zip(per_tick.iter()) {
        assert_eq!(a.parent, b.parent);
        assert_eq!(a.label, b.label);
        assert_eq!(a.font_size, b.font_size);
    }
}

#[test]
fn items_never_land_under_the_character_root() {
    let batch = vec![
        entity(20, "Spoon", Category::Item),
        entity(21, "Fork", Category::Item),
    ];
    let cmds = sync(&batch, &both_roots());
    assert_eq!(labels_under(&cmds, 1), Vec::<String>::new());
    assert_eq!(labels_under(&cmds, 2), vec![String::from("Spoon"), String::from("Fork")]);
}

#[test]
fn characters_never_land_under_the_item_root() {
    let batch = vec![entity(30, "Toby", Category::Character)];
    let cmds = sync(&batch, &both_roots());
    assert_eq!(labels_under(&cmds, 2), Vec::<String>::new());
}

#[test]
fn unregistered_category_is_skipped() {
    // Only the character list exists yet: item entities are a silent no-op.
    let roots = RootRegistry { character_root: Some(1), item_root: None };
    let batch = vec![
        entity(40, "Spoon", Category::Item),
        entity(41, "Toby", Category::Character),
    ];
    let cmds = sync(&batch, &roots);
    assert_eq!(cmds.len(), 1);
    assert_eq!(cmds[0].parent, 1);
    assert_eq!(cmds[0].label, String::from("Toby"));
}

#[test]
fn no_roots_means_no_commands() {
    let roots = RootRegistry { character_root: None, item_root: None };
    let batch = vec![entity(50, "Toby", Category::Character)];
    assert_eq!(sync(&batch, &roots).len(), 0);
}

#[test]
fn empty_batch_emits_nothing() {
    assert_eq!(sync(&Vec::new(), &both_roots()).len(), 0);
}

#[test]
fn labels_render_at_the_fixed_style() {
    let batch = vec![entity(60, "Toby", Category::Character)];
    let cmds = sync(&batch, &both_roots());
    assert_eq!(cmds[0].font_size, LABEL_FONT_SIZE);
    assert_eq!(cmds[0].font_size, 20);
}
