//! What the mutations decide: the values they return and the statements
//! they write, in the order they write them.
use vstd::prelude::*;
use crate::ids::{is_uuid_v4_text, new_id, new_ids};
use crate::object::{
    CreateProcessInput, CreateRecipeDetailInput, CreateResourceInput, CreateStepInput, RecipeDetail,
    Resource, Step, UpdateResourceInput,
};
use crate::store::WriteCommand;

verus! {

/// The step that `input` describes, under the identifier `id`.
pub open spec fn created_step(id: String, input: CreateStepInput) -> Step {
    Step {
        id,
        description: input.description,
        resource_id: input.resource_id,
        order_number: input.order_number,
        duration: input.duration,
    }
}

/// `detail` is the recipe that `input` describes, under `recipe_id`, its
/// steps taking the identifiers `step_ids` in order.
pub open spec fn is_created_detail(
    detail: RecipeDetail,
    recipe_id: String,
    step_ids: Seq<String>,
    input: CreateRecipeDetailInput,
) -> bool {
    &&& detail.id == recipe_id
    &&& detail.title == input.title
    &&& detail.description == input.description
    &&& detail.steps@.len() == input.steps@.len()
    &&& forall|i: int|
        0 <= i < input.steps@.len() ==> #[trigger] detail.steps@[i] == created_step(
            step_ids[i],
            input.steps@[i],
        )
}

/// The statement that stores the recipe part of `detail`.
pub open spec fn insert_recipe_command(detail: RecipeDetail) -> WriteCommand {
    WriteCommand::InsertRecipe { id: detail.id, title: detail.title, description: detail.description }
}

/// The statement that stores `step` as a step of the recipe `recipe_id`.
pub open spec fn insert_step_command(recipe_id: String, step: Step) -> WriteCommand {
    WriteCommand::InsertStep {
        id: step.id,
        recipe_id,
        description: step.description,
        resource_id: step.resource_id,
        order_number: step.order_number,
        duration: step.duration,
    }
}

/// `cmds` stores `detail`: first the recipe, then each step in order.
pub open spec fn is_insert_plan(cmds: Seq<WriteCommand>, detail: RecipeDetail) -> bool {
    &&& cmds.len() == detail.steps@.len() + 1
    &&& cmds[0] == insert_recipe_command(detail)
    &&& forall|i: int|
        0 <= i < detail.steps@.len() ==> cmds[i + 1] == insert_step_command(
            detail.id,
            #[trigger] detail.steps@[i],
        )
}

/// The statement that overwrites the recipe part of `detail`.
pub open spec fn update_recipe_command(detail: RecipeDetail) -> WriteCommand {
    WriteCommand::UpdateRecipe { id: detail.id, title: detail.title, description: detail.description }
}

/// The statement that overwrites the stored step with the id of `step`,
/// provided that it belongs to the recipe `recipe_id`.
pub open spec fn update_step_command(recipe_id: String, step: Step) -> WriteCommand {
    WriteCommand::UpdateStep {
        id: step.id,
        recipe_id,
        description: step.description,
        resource_id: step.resource_id,
        order_number: step.order_number,
        duration: step.duration,
    }
}

/// `cmds` overwrites `detail`: first the recipe, then each step in order,
/// each step statement limited to the steps of `detail`'s recipe.
pub open spec fn is_update_plan(cmds: Seq<WriteCommand>, detail: RecipeDetail) -> bool {
    &&& cmds.len() == detail.steps@.len() + 1
    &&& cmds[0] == update_recipe_command(detail)
    &&& forall|i: int|
        0 <= i < detail.steps@.len() ==> cmds[i + 1] == update_step_command(
            detail.id,
            #[trigger] detail.steps@[i],
        )
}

/// `cmds` registers each recipe of `recipe_ids`, in order, with the process
/// `process_id`.
pub open spec fn is_registration_plan(cmds: Seq<WriteCommand>, process_id: u64, recipe_ids: Seq<String>) -> bool {
    &&& cmds.len() == recipe_ids.len()
    &&& forall|i: int|
        0 <= i < recipe_ids.len() ==> cmds[i] == (WriteCommand::RegisterRecipe {
            process_id,
            recipe_id: #[trigger] recipe_ids[i],
        })
}

/// The recipe that `input` describes, stored under `recipe_id`, its steps
/// taking the identifiers `step_ids` in order.
pub fn recipe_detail_from_input(
    recipe_id: String,
    step_ids: Vec<String>,
    input: CreateRecipeDetailInput,
) -> (detail: RecipeDetail)
    requires
        step_ids@.len() == input.steps@.len(),
    ensures
        is_created_detail(detail, recipe_id, step_ids@, input),
{
    let mut steps: Vec<Step> = Vec::new();
    let n = input.steps.len();
    let mut i: usize = 0;
    while i < n
        invariant
            n == input.steps@.len(),
            n == step_ids@.len(),
            i <= n,
            steps@.len() == i,
            forall|j: int|
                0 <= j < i ==> #[trigger] steps@[j] == created_step(step_ids@[j], input.steps@[j]),
        decreases n - i,
    {
        let s = &input.steps[i];
        steps.push(
            Step {
                id: step_ids[i].clone(),
                description: s.description.clone(),
                resource_id: s.resource_id,
                order_number: s.order_number,
                duration: s.duration,
            },
        );
        i = i + 1;
    }
    RecipeDetail { id: recipe_id, title: input.title, description: input.description, steps }
}

/// The statements that store `detail`: the recipe, then its steps in order.
pub fn insert_commands(detail: &RecipeDetail) -> (cmds: Vec<WriteCommand>)
    ensures
        is_insert_plan(cmds@, *detail),
{
    let mut cmds: Vec<WriteCommand> = Vec::new();
    cmds.push(
        WriteCommand::InsertRecipe {
            id: detail.id.clone(),
            title: detail.title.clone(),
            description: detail.description.clone(),
        },
    );
    let n = detail.steps.len();
    let mut i: usize = 0;
    while i < n
        invariant
            n == detail.steps@.len(),
            i <= n,
            cmds@.len() == i + 1,
            cmds@[0] == insert_recipe_command(*detail),
            forall|j: int|
                0 <= j < i ==> cmds@[j + 1] == insert_step_command(
                    detail.id,
                    #[trigger] detail.steps@[j],
                ),
        decreases n - i,
    {
        let s = &detail.steps[i];
        cmds.push(
            WriteCommand::InsertStep {
                id: s.id.clone(),
                recipe_id: detail.id.clone(),
                description: s.description.clone(),
                resource_id: s.resource_id,
                order_number: s.order_number,
                duration: s.duration,
            },
        );
        i = i + 1;
    }
    cmds
}

/// The statements that overwrite `detail`: the recipe, then its steps in
/// order.
pub fn update_commands(detail: &RecipeDetail) -> (cmds: Vec<WriteCommand>)
    ensures
        is_update_plan(cmds@, *detail),
{
    let mut cmds: Vec<WriteCommand> = Vec::new();
    cmds.push(
        WriteCommand::UpdateRecipe {
            id: detail.id.clone(),
            title: detail.title.clone(),
            description: detail.description.clone(),
        },
    );
    let n = detail.steps.len();
    let mut i: usize = 0;
    while i < n
        invariant
            n == detail.steps@.len(),
            i <= n,
            cmds@.len() == i + 1,
            cmds@[0] == update_recipe_command(*detail),
            forall|j: int|
                0 <= j < i ==> cmds@[j + 1] == update_step_command(
                    detail.id,
                    #[trigger] detail.steps@[j],
                ),
        decreases n - i,
    {
        let s = &detail.steps[i];
        cmds.push(
            WriteCommand::UpdateStep {
                id: s.id.clone(),
                recipe_id: detail.id.clone(),
                description: s.description.clone(),
                resource_id: s.resource_id,
                order_number: s.order_number,
                duration: s.duration,
            },
        );
        i = i + 1;
    }
    cmds
}

/// Creates a recipe with its steps: draws a fresh identifier for the recipe
/// and one for each step, and returns the new recipe with the statements
/// that store it. The recipe keeps the title, the description and the steps
/// of `input`, in order; only the identifiers are new, and they differ from
/// each other. `None` where the random source failed to supply an
/// identifier, or repeated one; nothing is stored then.
pub fn create_recipe_detail(input: CreateRecipeDetailInput) -> (res: Option<(RecipeDetail, Vec<WriteCommand>)>)
    ensures
        res matches Some((detail, cmds)) ==> {
            &&& is_uuid_v4_text(detail.id@)
            &&& detail.title == input.title
            &&& detail.description == input.description
            &&& detail.steps@.len() == input.steps@.len()
            &&& forall|i: int|
                0 <= i < input.steps@.len() ==> {
                    &&& is_uuid_v4_text((#[trigger] detail.steps@[i]).id@)
                    &&& detail.steps@[i] == created_step(detail.steps@[i].id, input.steps@[i])
                }
            &&& forall|i: int, j: int|
                0 <= i < j < detail.steps@.len() ==> (#[trigger] detail.steps@[i]).id@ != (
                #[trigger] detail.steps@[j]).id@
            &&& forall|i: int| 0 <= i < detail.steps@.len() ==> detail.id@ != (#[trigger] detail.steps@[i]).id@
            &&& is_insert_plan(cmds@, detail)
        },
{
    let recipe_id = match new_id() {
        Some(id) => id,
        None => return None,
    };
    let step_ids = match new_ids(input.steps.len()) {
        Some(ids) => ids,
        None => return None,
    };
    let n = step_ids.len();
    let mut j: usize = 0;
    while j < n
        invariant
            n == step_ids@.len(),
            j <= n,
            forall|i: int| 0 <= i < j ==> (#[trigger] step_ids@[i])@ != recipe_id@,
        decreases n - j,
    {
        if step_ids[j] == recipe_id {
            return None;
        }
        j = j + 1;
    }
    let ghost ids = step_ids@;
    let detail = recipe_detail_from_input(recipe_id, step_ids, input);
    assert forall|i: int| 0 <= i < input.steps@.len() implies detail.steps@[i].id == ids[i] by {
        assert(detail.steps@[i] == created_step(ids[i], input.steps@[i]));
    }
    let cmds = insert_commands(&detail);
    Some((detail, cmds))
}

/// Updates a whole recipe with its related steps: returns `detail`
/// unchanged with the statements that overwrite the stored recipe and each
/// of its steps. A step statement touches only a step stored under this
/// recipe; a step of another recipe named in `detail` is left alone.
pub fn update_recipe_detail(detail: RecipeDetail) -> (res: (RecipeDetail, Vec<WriteCommand>))
    ensures
        res.0 == detail,
        is_update_plan(res.1@, detail),
{
    let cmds = update_commands(&detail);
    (detail, cmds)
}

/// The statement that stores a new resource.
pub fn insert_resource_command(input: &CreateResourceInput) -> (cmd: WriteCommand)
    ensures
        cmd == (WriteCommand::InsertResource { name: input.name, amount: input.amount }),
{
    WriteCommand::InsertResource { name: input.name.clone(), amount: input.amount }
}

/// The resource that was stored from `input`, under the key
/// `inserted_id` that the database assigned to it.
pub fn created_resource(input: CreateResourceInput, inserted_id: u64) -> (resource: Resource)
    ensures
        resource == (Resource { id: inserted_id, name: input.name, amount: input.amount }),
{
    Resource { id: inserted_id, name: input.name, amount: input.amount }
}

/// Updates a resource: the statement that overwrites it, and the resource
/// as it now stands.
pub fn update_resource(input: UpdateResourceInput) -> (res: (WriteCommand, Resource))
    ensures
        res.0 == (WriteCommand::UpdateResource { id: input.id, name: input.name, amount: input.amount }),
        res.1 == (Resource { id: input.id, name: input.name, amount: input.amount }),
{
    let cmd = WriteCommand::UpdateResource { id: input.id, name: input.name.clone(), amount: input.amount };
    (cmd, Resource { id: input.id, name: input.name, amount: input.amount })
}

/// The statement that stores a new process; every process is named
/// `process`.
pub fn insert_process_command() -> (cmd: WriteCommand)
    ensures
        cmd matches WriteCommand::InsertProcess { name } && name@ == "process"@,
{
    WriteCommand::InsertProcess { name: "process".to_owned() }
}

/// The statements that register each recipe of `input`, in order, with the
/// process `process_id` that the database assigned.
pub fn registration_commands(process_id: u64, input: &CreateProcessInput) -> (cmds: Vec<WriteCommand>)
    ensures
        is_registration_plan(cmds@, process_id, input.recipe_id_list@),
{
    let mut cmds: Vec<WriteCommand> = Vec::new();
    let n = input.recipe_id_list.len();
    let mut i: usize = 0;
    while i < n
        invariant
            n == input.recipe_id_list@.len(),
            i <= n,
            cmds@.len() == i,
            forall|j: int|
                0 <= j < i ==> cmds@[j] == (WriteCommand::RegisterRecipe {
                    process_id,
                    recipe_id: #[trigger] input.recipe_id_list@[j],
                }),
        decreases n - i,
    {
        cmds.push(
            WriteCommand::RegisterRecipe { process_id, recipe_id: input.recipe_id_list[i].clone() },
        );
        i = i + 1;
    }
    cmds
}

} // verus!
