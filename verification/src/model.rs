//! A model of the tables: what each statement of `store::WriteCommand` does
//! to them, and what the SELECTs of the queries read from them. A table is
//! a sequence of rows; a SELECT returns its rows in an order the database
//! chooses, which the laws take as an arbitrary reordering.
use vstd::prelude::*;
use crate::store::{RecipeRow, ResourceRow, StepRow, WriteCommand};

verus! {

/// A row of the `steps` table: the step and the recipe it belongs to.
#[derive(Debug)]
pub struct StoredStep {
    pub recipe_id: String,
    pub row: StepRow,
}

/// A row of the `processes` table.
#[derive(Debug)]
pub struct StoredProcess {
    pub id: u64,
    pub name: String,
}

/// A row of the `process_regsitrations` table.
#[derive(Debug)]
pub struct Registration {
    pub process_id: u64,
    pub recipe_id: String,
}

// ------------------------------------------------------------ reorderings

/// `perm` reorders `n` positions: it maps `0..n` onto `0..n` one to one.
pub open spec fn is_reordering(perm: Seq<int>, n: int) -> bool {
    &&& perm.len() == n
    &&& forall|i: int| 0 <= i < n ==> 0 <= #[trigger] perm[i] < n
    &&& forall|i: int, j: int| 0 <= i < n && 0 <= j < n && i != j ==> perm[i] != perm[j]
    &&& forall|k: int| 0 <= k < n ==> #[trigger] perm.contains(k)
}

/// `rows` are the rows of `table` in the order `perm`.
pub open spec fn reads_as<A>(rows: Seq<A>, table: Seq<A>, perm: Seq<int>) -> bool {
    &&& is_reordering(perm, table.len() as int)
    &&& rows.len() == table.len()
    &&& forall|i: int| 0 <= i < rows.len() ==> #[trigger] rows[i] == table[perm[i]]
}

// ------------------------------------------------------- one statement

/// The `recipes` table after `cmd`.
pub open spec fn recipes_after(t: Seq<RecipeRow>, cmd: WriteCommand) -> Seq<RecipeRow> {
    match cmd {
        WriteCommand::InsertRecipe { id, title, description } => t.push(
            RecipeRow { id, title, description },
        ),
        WriteCommand::UpdateRecipe { id, title, description } => t.map_values(
            |r: RecipeRow|
                if r.id@ == id@ {
                    RecipeRow { id: r.id, title, description }
                } else {
                    r
                },
        ),
        _ => t,
    }
}

/// A row of the `steps` table after `cmd`, where `cmd` updates rows in
/// place.
pub open spec fn step_after(s: StoredStep, cmd: WriteCommand) -> StoredStep {
    match cmd {
        WriteCommand::UpdateStep { id, recipe_id, description, resource_id, order_number, duration } => {
            if s.row.id@ == id@ && s.recipe_id@ == recipe_id@ {
                StoredStep {
                    recipe_id: s.recipe_id,
                    row: StepRow { id: s.row.id, description, resource_id, order_number, duration },
                }
            } else {
                s
            }
        },
        _ => s,
    }
}

/// The `steps` table after `cmd`.
pub open spec fn steps_after(t: Seq<StoredStep>, cmd: WriteCommand) -> Seq<StoredStep> {
    match cmd {
        WriteCommand::InsertStep { id, recipe_id, description, resource_id, order_number, duration } => t.push(
            StoredStep { recipe_id, row: StepRow { id, description, resource_id, order_number, duration } },
        ),
        WriteCommand::UpdateStep { .. } => t.map_values(|s: StoredStep| step_after(s, cmd)),
        _ => t,
    }
}

/// The `resources` table after `cmd`; a new row takes the key `assigned`
/// that the database hands out.
pub open spec fn resources_after(t: Seq<ResourceRow>, cmd: WriteCommand, assigned: u64) -> Seq<ResourceRow> {
    match cmd {
        WriteCommand::InsertResource { name, amount } => t.push(ResourceRow { id: assigned, name, amount }),
        WriteCommand::UpdateResource { id, name, amount } => t.map_values(
            |r: ResourceRow|
                if r.id == id {
                    ResourceRow { id, name, amount }
                } else {
                    r
                },
        ),
        _ => t,
    }
}

/// The `processes` table after `cmd`; a new row takes the key `assigned`
/// that the database hands out.
pub open spec fn processes_after(t: Seq<StoredProcess>, cmd: WriteCommand, assigned: u64) -> Seq<StoredProcess> {
    match cmd {
        WriteCommand::InsertProcess { name } => t.push(StoredProcess { id: assigned, name }),
        _ => t,
    }
}

/// The `process_regsitrations` table after `cmd`.
pub open spec fn registrations_after(t: Seq<Registration>, cmd: WriteCommand) -> Seq<Registration> {
    match cmd {
        WriteCommand::RegisterRecipe { process_id, recipe_id } => t.push(Registration { process_id, recipe_id }),
        _ => t,
    }
}

// ------------------------------------------------------------ plans

/// The `recipes` table after the statements `cmds`, in order.
pub open spec fn recipes_after_plan(t: Seq<RecipeRow>, cmds: Seq<WriteCommand>) -> Seq<RecipeRow>
    decreases cmds.len(),
{
    if cmds.len() == 0 {
        t
    } else {
        recipes_after(recipes_after_plan(t, cmds.drop_last()), cmds.last())
    }
}

/// The `steps` table after the statements `cmds`, in order.
pub open spec fn steps_after_plan(t: Seq<StoredStep>, cmds: Seq<WriteCommand>) -> Seq<StoredStep>
    decreases cmds.len(),
{
    if cmds.len() == 0 {
        t
    } else {
        steps_after(steps_after_plan(t, cmds.drop_last()), cmds.last())
    }
}

/// The `process_regsitrations` table after the statements `cmds`, in order.
pub open spec fn registrations_after_plan(t: Seq<Registration>, cmds: Seq<WriteCommand>) -> Seq<Registration>
    decreases cmds.len(),
{
    if cmds.len() == 0 {
        t
    } else {
        registrations_after(registrations_after_plan(t, cmds.drop_last()), cmds.last())
    }
}

// ------------------------------------------------------------ reads

/// The row of `recipes` with the key `id` (`WHERE id = ?`).
pub open spec fn select_recipe(t: Seq<RecipeRow>, id: Seq<char>) -> Option<RecipeRow>
    decreases t.len(),
{
    if t.len() == 0 {
        None
    } else if t[0].id@ == id {
        Some(t[0])
    } else {
        select_recipe(t.drop_first(), id)
    }
}

/// The stored steps of the recipe `recipe_id`, in table order.
pub open spec fn stored_steps_of(t: Seq<StoredStep>, recipe_id: Seq<char>) -> Seq<StoredStep>
    decreases t.len(),
{
    if t.len() == 0 {
        Seq::empty()
    } else {
        let rest = stored_steps_of(t.drop_last(), recipe_id);
        if t.last().recipe_id@ == recipe_id {
            rest.push(t.last())
        } else {
            rest
        }
    }
}

/// The step rows of the recipe `recipe_id` (`WHERE recipe_id = ?`), in
/// table order.
pub open spec fn select_steps(t: Seq<StoredStep>, recipe_id: Seq<char>) -> Seq<StepRow> {
    stored_steps_of(t, recipe_id).map_values(|s: StoredStep| s.row)
}

/// The row of `resources` with the key `id` (`WHERE id = ?`).
pub open spec fn select_resource(t: Seq<ResourceRow>, id: u64) -> Option<ResourceRow>
    decreases t.len(),
{
    if t.len() == 0 {
        None
    } else if t[0].id == id {
        Some(t[0])
    } else {
        select_resource(t.drop_first(), id)
    }
}

/// The row of `processes` with the key `id`.
pub open spec fn select_process(t: Seq<StoredProcess>, id: u64) -> Option<StoredProcess>
    decreases t.len(),
{
    if t.len() == 0 {
        None
    } else if t[0].id == id {
        Some(t[0])
    } else {
        select_process(t.drop_first(), id)
    }
}

/// The recipes registered with the process `process_id`, joined with the
/// `recipes` table, in table order of the registrations.
pub open spec fn select_process_recipes(
    regs: Seq<Registration>,
    recipes: Seq<RecipeRow>,
    process_id: u64,
) -> Seq<Option<RecipeRow>>
    decreases regs.len(),
{
    if regs.len() == 0 {
        Seq::empty()
    } else {
        let rest = select_process_recipes(regs.drop_last(), recipes, process_id);
        if regs.last().process_id == process_id {
            rest.push(select_recipe(recipes, regs.last().recipe_id@))
        } else {
            rest
        }
    }
}

} // verus!
