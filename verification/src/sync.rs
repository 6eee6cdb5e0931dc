//! The list synchronizer: projects a batch of newly created entities into
//! append commands against the registered per-category list containers.

use vstd::prelude::*;

use crate::model::{
    AppendChildCommand, AppendCmdView, Category, DisplayEntity, EntityView, RootRegistry, WidgetId,
};

verus! {

/// Fixed style of every list label: font size in logical units.
pub const LABEL_FONT_SIZE: u64 = 20;

/// The views of a batch of entities, in delivery order.
pub open spec fn entity_views(entities: Seq<DisplayEntity>) -> Seq<EntityView> {
    entities.map_values(|e: DisplayEntity| e@)
}

/// The views of a batch of append commands, in emission order.
pub open spec fn cmd_views(cmds: Seq<AppendChildCommand>) -> Seq<AppendCmdView> {
    cmds.map_values(|c: AppendChildCommand| c@)
}

/// The command that projects entity `e` under container `parent`: its
/// display name rendered as a plain text label at the fixed style.
pub open spec fn render_command(e: EntityView, parent: WidgetId) -> AppendCmdView {
    AppendCmdView { parent, label: e.display_name, font_size: LABEL_FONT_SIZE }
}

/// The commands the synchronizer owes for a batch: one append per entity
/// whose category has a registered root, in delivery order; entities of an
/// unregistered category are skipped.
pub open spec fn sync_spec(entities: Seq<EntityView>, roots: RootRegistry) -> Seq<AppendCmdView>
    decreases entities.len(),
{
    if entities.len() == 0 {
        Seq::empty()
    } else {
        let prefix = sync_spec(entities.drop_last(), roots);
        match roots.spec_root_of(entities.last().category) {
            Option::Some(parent) => prefix.push(render_command(entities.last(), parent)),
            Option::None => prefix,
        }
    }
}

/// The labels appended under `container` by a batch of commands, in
/// emission order.
pub open spec fn children_under(cmds: Seq<AppendCmdView>, container: WidgetId) -> Seq<Seq<char>>
    decreases cmds.len(),
{
    if cmds.len() == 0 {
        Seq::empty()
    } else {
        let prefix = children_under(cmds.drop_last(), container);
        if cmds.last().parent == container {
            prefix.push(cmds.last().label)
        } else {
            prefix
        }
    }
}

/// The display names of the entities of category `c` in a batch, in
/// delivery order.
pub open spec fn names_of(entities: Seq<EntityView>, c: Category) -> Seq<Seq<char>>
    decreases entities.len(),
{
    if entities.len() == 0 {
        Seq::empty()
    } else {
        let prefix = names_of(entities.drop_last(), c);
        if entities.last().category == c {
            prefix.push(entities.last().display_name)
        } else {
            prefix
        }
    }
}

/// Law: synchronization is batch-granularity invariant. Delivering two
/// batches one after the other emits the same commands, in the same
/// order, as delivering their concatenation in one batch; so batch size
/// one and batch size N yield the same final lists.
pub proof fn lemma_sync_batching(
    batch1: Seq<EntityView>,
    batch2: Seq<EntityView>,
    roots: RootRegistry,
)
    ensures
        sync_spec(batch1 + batch2, roots) == sync_spec(batch1, roots) + sync_spec(batch2, roots),
    decreases batch2.len(),
{
    if batch2.len() == 0 {
        assert(batch1 + batch2 =~= batch1);
        assert(sync_spec(batch1, roots) + sync_spec(batch2, roots) =~= sync_spec(batch1, roots));
    } else {
        lemma_sync_batching(batch1, batch2.drop_last(), roots);
        assert((batch1 + batch2).drop_last() =~= batch1 + batch2.drop_last());
        assert((batch1 + batch2).last() == batch2.last());
        match roots.spec_root_of(batch2.last().category) {
            Option::Some(parent) => {
                assert(sync_spec(batch1, roots) + sync_spec(batch2.drop_last(), roots).push(
                    render_command(batch2.last(), parent),
                ) =~= (sync_spec(batch1, roots) + sync_spec(batch2.drop_last(), roots)).push(
                    render_command(batch2.last(), parent),
                ));
            },
            Option::None => {},
        }
    }
}

/// Law: the children appended under the container registered for
/// category `c` are exactly the display names of the batch's entities of
/// category `c`, one child per entity, in delivery order — provided the
/// other category does not share the same container.
pub proof fn lemma_children_in_creation_order(
    entities: Seq<EntityView>,
    roots: RootRegistry,
    c: Category,
    container: WidgetId,
)
    requires
        roots.spec_root_of(c) == Option::Some(container),
        roots.spec_root_of(c.other()) != Option::Some(container),
    ensures
        children_under(sync_spec(entities, roots), container) == names_of(entities, c),
    decreases entities.len(),
{
    if entities.len() > 0 {
        lemma_children_in_creation_order(entities.drop_last(), roots, c, container);
        let e = entities.last();
        match roots.spec_root_of(e.category) {
            Option::Some(parent) => {
                let cmds = sync_spec(entities.drop_last(), roots).push(render_command(e, parent));
                assert(cmds.drop_last() =~= sync_spec(entities.drop_last(), roots));
            },
            Option::None => {},
        }
    }
}

/// Law: category isolation. A batch holding no entity of category `c`
/// appends nothing under the container registered for `c` — entities of
/// one category never produce children under the other category's list
/// root, provided the two categories do not share a container.
pub proof fn lemma_category_isolation(
    entities: Seq<EntityView>,
    roots: RootRegistry,
    c: Category,
    container: WidgetId,
)
    requires
        roots.spec_root_of(c) == Option::Some(container),
        roots.spec_root_of(c.other()) != Option::Some(container),
        forall|i: int| 0 <= i < entities.len() ==> entities[i].category != c,
    ensures
        children_under(sync_spec(entities, roots), container) == Seq::<Seq<char>>::empty(),
{
    lemma_children_in_creation_order(entities, roots, c, container);
    lemma_names_of_absent_category(entities, c);
}

/// A batch holding no entity of category `c` has no names of category `c`.
proof fn lemma_names_of_absent_category(entities: Seq<EntityView>, c: Category)
    requires
        forall|i: int| 0 <= i < entities.len() ==> entities[i].category != c,
    ensures
        names_of(entities, c) == Seq::<Seq<char>>::empty(),
    decreases entities.len(),
{
    if entities.len() > 0 {
        lemma_names_of_absent_category(entities.drop_last(), c);
    }
}

/// Consumes the entities observed as newly created since the previous
/// tick and emits one append command per entity whose category has a
/// registered list root, in delivery order.
pub fn sync(new_entities: &Vec<DisplayEntity>, roots: &RootRegistry) -> (cmds: Vec<
    AppendChildCommand,
>)
    ensures
        cmd_views(cmds@) == sync_spec(entity_views(new_entities@), *roots),
{
    let mut cmds: Vec<AppendChildCommand> = Vec::new();
    let n = new_entities.len();
    for i in 0..n
        invariant
            n == new_entities.len(),
            cmd_views(cmds@) == sync_spec(entity_views(new_entities@).take(i as int), *roots),
    {
        let e = &new_entities[i];
        match roots.root_of(e.category) {
            Option::Some(parent) => {
                let cmd = AppendChildCommand {
                    parent,
                    label: e.display_name.clone(),
                    font_size: LABEL_FONT_SIZE,
                };
                proof {
                    let evs = entity_views(new_entities@);
                    assert(evs.take(i + 1).drop_last() =~= evs.take(i as int));
                    assert(evs.take(i + 1).last() == e@);
                    assert(cmd_views(cmds@.push(cmd)) =~= cmd_views(cmds@).push(cmd@));
                    assert(cmd@ == render_command(e@, parent));
                }
                cmds.push(cmd);
            },
            Option::None => {
                proof {
                    let evs = entity_views(new_entities@);
                    assert(evs.take(i + 1).drop_last() =~= evs.take(i as int));
                    assert(evs.take(i + 1).last() == e@);
                }
            },
        }
    }
    proof {
        assert(entity_views(new_entities@).take(n as int) =~= entity_views(new_entities@));
    }
    cmds
}

/// The labels a batch of commands appends under `container`, in emission
/// order: what the container's child list gains when the host applies
/// the batch.
pub fn labels_under(cmds: &Vec<AppendChildCommand>, container: WidgetId) -> (labels: Vec<String>)
    ensures
        labels@.map_values(|s: String| s@) == children_under(cmd_views(cmds@), container),
{
    let mut labels: Vec<String> = Vec::new();
    let n = cmds.len();
    for i in 0..n
        invariant
            n == cmds.len(),
            labels@.map_values(|s: String| s@) == children_under(
                cmd_views(cmds@).take(i as int),
                container,
            ),
    {
        let cvs = Ghost(cmd_views(cmds@));
        proof {
            assert(cvs@.take(i + 1).drop_last() =~= cvs@.take(i as int));
            assert(cvs@.take(i + 1).last() == cmds@[i as int]@);
        }
        if cmds[i].parent == container {
            let label = cmds[i].label.clone();
            proof {
                assert(labels@.push(label).map_values(|s: String| s@) =~= labels@.map_values(
                    |s: String| s@,
                ).push(label@));
            }
            labels.push(label);
        }
    }
    proof {
        assert(cmd_views(cmds@).take(n as int) =~= cmd_views(cmds@));
    }
    labels
}

} // verus!
