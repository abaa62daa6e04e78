//! What the queries make of the rows they read.
use vstd::prelude::*;
use crate::object::{Recipe, RecipeDetail, Resource, Step};
use crate::store::{RecipeRow, ResourceRow, StepRow};

verus! {

/// The recipe that `row` holds.
pub open spec fn recipe_of_row(row: RecipeRow) -> Recipe {
    Recipe { id: row.id, title: row.title, description: row.description }
}

/// The step that `row` holds.
pub open spec fn step_of_row(row: StepRow) -> Step {
    Step {
        id: row.id,
        description: row.description,
        resource_id: row.resource_id,
        order_number: row.order_number,
        duration: row.duration,
    }
}

/// The resource that `row` holds.
pub open spec fn resource_of_row(row: ResourceRow) -> Resource {
    Resource { id: row.id, name: row.name, amount: row.amount }
}

/// The recipe that a row of the `recipes` table holds.
pub fn recipe_from_row(row: &RecipeRow) -> (recipe: Recipe)
    ensures
        recipe == recipe_of_row(*row),
{
    Recipe { id: row.id.clone(), title: row.title.clone(), description: row.description.clone() }
}

/// The step that a row of the `steps` table holds.
pub fn step_from_row(row: &StepRow) -> (step: Step)
    ensures
        step == step_of_row(*row),
{
    Step {
        id: row.id.clone(),
        description: row.description.clone(),
        resource_id: row.resource_id,
        order_number: row.order_number,
        duration: row.duration,
    }
}

/// The resource that a row of the `resources` table holds.
pub fn resource_from_row(row: &ResourceRow) -> (resource: Resource)
    ensures
        resource == resource_of_row(*row),
{
    Resource { id: row.id, name: row.name.clone(), amount: row.amount }
}

/// The recipes that `rows` hold, in the order of the rows.
pub fn recipes_from_rows(rows: &Vec<RecipeRow>) -> (recipes: Vec<Recipe>)
    ensures
        recipes@.len() == rows@.len(),
        forall|i: int| 0 <= i < rows@.len() ==> #[trigger] recipes@[i] == recipe_of_row(rows@[i]),
{
    let mut recipes: Vec<Recipe> = Vec::new();
    let n = rows.len();
    let mut i: usize = 0;
    while i < n
        invariant
            n == rows@.len(),
            i <= n,
            recipes@.len() == i,
            forall|j: int| 0 <= j < i ==> #[trigger] recipes@[j] == recipe_of_row(rows@[j]),
        decreases n - i,
    {
        recipes.push(recipe_from_row(&rows[i]));
        i = i + 1;
    }
    recipes
}

/// The steps that `rows` hold, in the order of the rows.
pub fn steps_from_rows(rows: &Vec<StepRow>) -> (steps: Vec<Step>)
    ensures
        steps@.len() == rows@.len(),
        forall|i: int| 0 <= i < rows@.len() ==> #[trigger] steps@[i] == step_of_row(rows@[i]),
{
    let mut steps: Vec<Step> = Vec::new();
    let n = rows.len();
    let mut i: usize = 0;
    while i < n
        invariant
            n == rows@.len(),
            i <= n,
            steps@.len() == i,
            forall|j: int| 0 <= j < i ==> #[trigger] steps@[j] == step_of_row(rows@[j]),
        decreases n - i,
    {
        steps.push(step_from_row(&rows[i]));
        i = i + 1;
    }
    steps
}

/// The resources that `rows` hold, in the order of the rows.
pub fn resources_from_rows(rows: &Vec<ResourceRow>) -> (resources: Vec<Resource>)
    ensures
        resources@.len() == rows@.len(),
        forall|i: int| 0 <= i < rows@.len() ==> #[trigger] resources@[i] == resource_of_row(rows@[i]),
{
    let mut resources: Vec<Resource> = Vec::new();
    let n = rows.len();
    let mut i: usize = 0;
    while i < n
        invariant
            n == rows@.len(),
            i <= n,
            resources@.len() == i,
            forall|j: int| 0 <= j < i ==> #[trigger] resources@[j] == resource_of_row(rows@[j]),
        decreases n - i,
    {
        resources.push(resource_from_row(&rows[i]));
        i = i + 1;
    }
    resources
}

/// `detail` is the recipe of `row` with the steps of `step_rows`, in the
/// order of the rows.
pub open spec fn is_detail_of_rows(detail: RecipeDetail, row: RecipeRow, step_rows: Seq<StepRow>) -> bool {
    &&& detail.id == row.id
    &&& detail.title == row.title
    &&& detail.description == row.description
    &&& detail.steps@.len() == step_rows.len()
    &&& forall|i: int|
        0 <= i < step_rows.len() ==> #[trigger] detail.steps@[i] == step_of_row(step_rows[i])
}

/// A recipe with its steps, from the recipe's row and the rows of its
/// steps. A caller that looked the recipe up and found no row has nothing
/// to hand here; the query then fails, as it always has.
pub fn recipe_detail_from_rows(row: RecipeRow, step_rows: &Vec<StepRow>) -> (detail: RecipeDetail)
    ensures
        is_detail_of_rows(detail, row, step_rows@),
{
    let steps = steps_from_rows(step_rows);
    RecipeDetail { id: row.id, title: row.title, description: row.description, steps }
}

} // verus!
