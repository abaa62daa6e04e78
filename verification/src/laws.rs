//! Properties that span several functions of the library.
use vstd::prelude::*;
use crate::model::{
    Registration, StoredProcess, StoredStep, processes_after, select_process, is_reordering, reads_as, recipes_after, recipes_after_plan, step_after, registrations_after_plan, resources_after,
    select_process_recipes, select_recipe, select_resource, select_steps, steps_after_plan,
    stored_steps_of,
};
use crate::mutation::{
    insert_step_command, is_insert_plan, is_registration_plan, is_update_plan, update_recipe_command,
    update_step_command,
};
use crate::object::{
    CreateProcessInput, CreateResourceInput, Process, Recipe, RecipeDetail, Resource, Step,
    UpdateResourceInput,
};
use crate::query::{is_detail_of_rows, recipe_of_row, resource_of_row, step_of_row};
use crate::schedule::{
    ProcessResponse, RequestRecipe, RequestResource, StepOutput, is_request_recipe, is_resource_info,
    outputs_on_resource, request_resources,
};
use crate::store::{RecipeRow, ResourceRow, StepRow, WriteCommand};

verus! {

/// The stored form of `step`, a step of the recipe `recipe_id`.
pub open spec fn stored_step(recipe_id: String, step: Step) -> StoredStep {
    StoredStep {
        recipe_id,
        row: StepRow {
            id: step.id,
            description: step.description,
            resource_id: step.resource_id,
            order_number: step.order_number,
            duration: step.duration,
        },
    }
}

/// The recipe row that `detail` is stored as.
pub open spec fn stored_recipe(detail: RecipeDetail) -> RecipeRow {
    RecipeRow { id: detail.id, title: detail.title, description: detail.description }
}

/// The first `k + 1` statements of the plan that stores `detail` add its
/// recipe row and its first `k` steps.
proof fn lemma_insert_plan_prefix(
    recipes: Seq<RecipeRow>,
    steps: Seq<StoredStep>,
    detail: RecipeDetail,
    cmds: Seq<WriteCommand>,
    k: int,
)
    requires
        is_insert_plan(cmds, detail),
        0 <= k <= detail.steps@.len(),
    ensures
        recipes_after_plan(recipes, cmds.take(k + 1)) == recipes.push(stored_recipe(detail)),
        steps_after_plan(steps, cmds.take(k + 1)) == steps + Seq::new(
            k as nat,
            |j: int| stored_step(detail.id, detail.steps@[j]),
        ),
    decreases k,
{
    let prefix = cmds.take(k + 1);
    assert(prefix.drop_last() =~= cmds.take(k));
    if k == 0 {
        assert(cmds.take(0) =~= Seq::<WriteCommand>::empty());
        assert(recipes_after_plan(recipes, cmds.take(0)) == recipes);
        assert(steps_after_plan(steps, cmds.take(0)) == steps);
        assert(prefix.last() == cmds[0]);
        assert(steps + Seq::new(0, |j: int| stored_step(detail.id, detail.steps@[j])) =~= steps);
    } else {
        lemma_insert_plan_prefix(recipes, steps, detail, cmds, k - 1);
        assert(prefix.last() == cmds[k]);
        assert(cmds[(k - 1) + 1] == insert_step_command(detail.id, detail.steps@[k - 1]));
        assert(steps + Seq::new(k as nat, |j: int| stored_step(detail.id, detail.steps@[j])) =~= (steps
            + Seq::new((k - 1) as nat, |j: int| stored_step(detail.id, detail.steps@[j]))).push(
            stored_step(detail.id, detail.steps@[k - 1]),
        ));
    }
}

/// A recipe key that no stored step carries selects no step.
proof fn lemma_stored_steps_none(t: Seq<StoredStep>, rid: Seq<char>)
    requires
        forall|i: int| 0 <= i < t.len() ==> (#[trigger] t[i]).recipe_id@ != rid,
    ensures
        stored_steps_of(t, rid) == Seq::<StoredStep>::empty(),
    decreases t.len(),
{
    if t.len() > 0 {
        assert forall|i: int| 0 <= i < t.drop_last().len() implies (#[trigger] t.drop_last()[i]).recipe_id@ != rid by {
            assert(t.drop_last()[i] == t[i]);
        }
        lemma_stored_steps_none(t.drop_last(), rid);
    }
}

/// Selecting the steps of a new recipe finds exactly the steps appended for
/// it, in order.
proof fn lemma_stored_steps_appended(t: Seq<StoredStep>, detail: RecipeDetail, k: int)
    requires
        forall|i: int| 0 <= i < t.len() ==> (#[trigger] t[i]).recipe_id@ != detail.id@,
        0 <= k <= detail.steps@.len(),
    ensures
        stored_steps_of(t + Seq::new(k as nat, |j: int| stored_step(detail.id, detail.steps@[j])), detail.id@)
            == Seq::new(k as nat, |j: int| stored_step(detail.id, detail.steps@[j])),
    decreases k,
{
    let added = Seq::new(k as nat, |j: int| stored_step(detail.id, detail.steps@[j]));
    if k == 0 {
        assert(t + added =~= t);
        lemma_stored_steps_none(t, detail.id@);
        assert(added =~= Seq::<StoredStep>::empty());
    } else {
        let prev = Seq::new((k - 1) as nat, |j: int| stored_step(detail.id, detail.steps@[j]));
        lemma_stored_steps_appended(t, detail, k - 1);
        assert((t + added).drop_last() =~= t + prev);
        assert((t + added).last() == stored_step(detail.id, detail.steps@[k - 1]));
        assert(added =~= prev.push(stored_step(detail.id, detail.steps@[k - 1])));
    }
}

/// Looking up a key that only the appended recipe row holds finds that row.
proof fn lemma_select_recipe_appended(t: Seq<RecipeRow>, r: RecipeRow)
    requires
        forall|i: int| 0 <= i < t.len() ==> (#[trigger] t[i]).id@ != r.id@,
    ensures
        select_recipe(t.push(r), r.id@) == Some(r),
    decreases t.len(),
{
    if t.len() > 0 {
        assert(t.push(r)[0] == t[0]);
        assert(t.push(r).drop_first() =~= t.drop_first().push(r));
        assert forall|i: int| 0 <= i < t.drop_first().len() implies (#[trigger] t.drop_first()[i]).id@ != r.id@ by {
            assert(t.drop_first()[i] == t[i + 1]);
        }
        lemma_select_recipe_appended(t.drop_first(), r);
    } else {
        assert(t.push(r)[0] == r);
    }
}

/// A created recipe reads back as created, its steps in whatever order the
/// database returns them. Where the plan that stores `detail` runs on
/// tables that hold no recipe and no step under `detail`'s fresh id, the
/// lookup of that id finds the recipe; and a recipe read from that row and
/// from the step rows, returned in the order `perm`, has the id, the title
/// and the description of `detail` and its steps reordered by `perm`.
pub proof fn lemma_created_recipe_reads_back(
    recipes: Seq<RecipeRow>,
    steps: Seq<StoredStep>,
    detail: RecipeDetail,
    cmds: Seq<WriteCommand>,
    step_rows: Seq<StepRow>,
    perm: Seq<int>,
    read: RecipeDetail,
)
    requires
        is_insert_plan(cmds, detail),
        forall|i: int| 0 <= i < recipes.len() ==> (#[trigger] recipes[i]).id@ != detail.id@,
        forall|i: int| 0 <= i < steps.len() ==> (#[trigger] steps[i]).recipe_id@ != detail.id@,
        reads_as(step_rows, select_steps(steps_after_plan(steps, cmds), detail.id@), perm),
        is_detail_of_rows(read, select_recipe(recipes_after_plan(recipes, cmds), detail.id@)->0, step_rows),
    ensures
        select_recipe(recipes_after_plan(recipes, cmds), detail.id@) == Some(stored_recipe(detail)),
        read.id == detail.id,
        read.title == detail.title,
        read.description == detail.description,
        read.steps@.len() == detail.steps@.len(),
        forall|i: int| 0 <= i < read.steps@.len() ==> #[trigger] read.steps@[i] == detail.steps@[perm[i]],
{
    let n = detail.steps@.len() as int;
    lemma_insert_plan_prefix(recipes, steps, detail, cmds, n);
    assert(cmds.take(n + 1) =~= cmds);
    lemma_select_recipe_appended(recipes, stored_recipe(detail));
    lemma_stored_steps_appended(steps, detail, n);
    let table = select_steps(steps_after_plan(steps, cmds), detail.id@);
    assert forall|i: int| 0 <= i < read.steps@.len() implies #[trigger] read.steps@[i] == detail.steps@[perm[i]] by {
        assert(step_rows[i] == table[perm[i]]);
        assert(read.steps@[i] == step_of_row(step_rows[i]));
    }
}

/// A created recipe joins the listing: where the listing before is the
/// rows of the table in the order `perm0` and the listing after the rows of
/// the table after the creation in the order `perm1`, the listing after has
/// one entry more, holds the new recipe, and holds every earlier entry.
pub proof fn lemma_created_recipe_listed(
    recipes: Seq<RecipeRow>,
    detail: RecipeDetail,
    cmds: Seq<WriteCommand>,
    rows0: Seq<RecipeRow>,
    perm0: Seq<int>,
    listing0: Seq<Recipe>,
    rows1: Seq<RecipeRow>,
    perm1: Seq<int>,
    listing1: Seq<Recipe>,
)
    requires
        is_insert_plan(cmds, detail),
        reads_as(rows0, recipes, perm0),
        listing0.len() == rows0.len(),
        forall|i: int| 0 <= i < rows0.len() ==> #[trigger] listing0[i] == recipe_of_row(rows0[i]),
        reads_as(rows1, recipes_after_plan(recipes, cmds), perm1),
        listing1.len() == rows1.len(),
        forall|i: int| 0 <= i < rows1.len() ==> #[trigger] listing1[i] == recipe_of_row(rows1[i]),
    ensures
        listing1.len() == listing0.len() + 1,
        listing1.contains(Recipe { id: detail.id, title: detail.title, description: detail.description }),
        forall|k: int| 0 <= k < listing0.len() ==> listing1.contains(#[trigger] listing0[k]),
{
    let n = detail.steps@.len() as int;
    lemma_insert_plan_prefix(recipes, Seq::empty(), detail, cmds, n);
    assert(cmds.take(n + 1) =~= cmds);
    let table = recipes.push(stored_recipe(detail));
    let last = recipes.len() as int;
    assert(perm1.contains(last));
    let i = choose|i: int| 0 <= i < perm1.len() && perm1[i] == last;
    assert(listing1[i] == recipe_of_row(rows1[i]));
    assert forall|k: int| 0 <= k < listing0.len() implies listing1.contains(#[trigger] listing0[k]) by {
        let p = perm0[k];
        assert(rows0[k] == recipes[p]);
        assert(perm1.contains(p));
        let j = choose|j: int| 0 <= j < perm1.len() && perm1[j] == p;
        assert(rows1[j] == table[p]);
        assert(listing1[j] == recipe_of_row(rows1[j]));
    }
}

/// The registrations of a new process, in the order `regs`.
pub open spec fn new_registrations(process_id: u64, recipe_ids: Seq<String>, k: int) -> Seq<Registration> {
    Seq::new(k as nat, |j: int| Registration { process_id, recipe_id: recipe_ids[j] })
}

/// The first `k` registration statements add the first `k` registrations.
proof fn lemma_registration_plan_prefix(
    regs: Seq<Registration>,
    cmds: Seq<WriteCommand>,
    process_id: u64,
    recipe_ids: Seq<String>,
    k: int,
)
    requires
        is_registration_plan(cmds, process_id, recipe_ids),
        0 <= k <= recipe_ids.len(),
    ensures
        registrations_after_plan(regs, cmds.take(k)) == regs + new_registrations(process_id, recipe_ids, k),
    decreases k,
{
    if k == 0 {
        assert(cmds.take(0) =~= Seq::<WriteCommand>::empty());
        assert(regs + new_registrations(process_id, recipe_ids, 0) =~= regs);
    } else {
        lemma_registration_plan_prefix(regs, cmds, process_id, recipe_ids, k - 1);
        assert(cmds.take(k).drop_last() =~= cmds.take(k - 1));
        assert(cmds.take(k).last() == cmds[k - 1]);
        assert(regs + new_registrations(process_id, recipe_ids, k) =~= (regs + new_registrations(
            process_id,
            recipe_ids,
            k - 1,
        )).push(Registration { process_id, recipe_id: recipe_ids[k - 1] }));
    }
}

/// Joining the registrations of a new process finds its recipes, in the
/// order registered.
proof fn lemma_process_recipes_appended(
    regs: Seq<Registration>,
    recipes: Seq<RecipeRow>,
    process_id: u64,
    recipe_ids: Seq<String>,
    k: int,
)
    requires
        forall|i: int| 0 <= i < regs.len() ==> (#[trigger] regs[i]).process_id != process_id,
        0 <= k <= recipe_ids.len(),
    ensures
        select_process_recipes(regs + new_registrations(process_id, recipe_ids, k), recipes, process_id)
            == Seq::new(k as nat, |j: int| select_recipe(recipes, recipe_ids[j]@)),
    decreases regs.len() + k,
{
    let all = regs + new_registrations(process_id, recipe_ids, k);
    if k == 0 {
        assert(all =~= regs);
        if regs.len() > 0 {
            assert(regs.drop_last() + new_registrations(process_id, recipe_ids, 0) =~= regs.drop_last());
            assert forall|i: int| 0 <= i < regs.drop_last().len() implies (
            #[trigger] regs.drop_last()[i]).process_id != process_id by {
                assert(regs.drop_last()[i] == regs[i]);
            }
            lemma_process_recipes_appended(regs.drop_last(), recipes, process_id, recipe_ids, 0);
        }
        assert(Seq::new(0, |j: int| select_recipe(recipes, recipe_ids[j]@)) =~= Seq::<Option<RecipeRow>>::empty());
    } else {
        lemma_process_recipes_appended(regs, recipes, process_id, recipe_ids, k - 1);
        assert(all.drop_last() =~= regs + new_registrations(process_id, recipe_ids, k - 1));
        assert(all.last() == Registration { process_id, recipe_id: recipe_ids[k - 1] });
        assert(Seq::new(k as nat, |j: int| select_recipe(recipes, recipe_ids[j]@)) =~= Seq::new(
            (k - 1) as nat,
            |j: int| select_recipe(recipes, recipe_ids[j]@),
        ).push(select_recipe(recipes, recipe_ids[k - 1]@)));
    }
}

/// A created process is scheduled with its recipes: where the registration
/// plan of a new process (no earlier registration under its key) has run,
/// each registered id names a stored recipe, and the joined rows come back
/// in the order `perm`, each joined row is found, and the request built
/// from the recipes read from them holds one recipe per registration, the
/// ids being those of the registrations reordered by `perm`.
pub proof fn lemma_process_request_holds_registered_recipes(
    regs: Seq<Registration>,
    recipes: Seq<RecipeRow>,
    process_id: u64,
    input: CreateProcessInput,
    cmds: Seq<WriteCommand>,
    rows: Seq<Option<RecipeRow>>,
    perm: Seq<int>,
    details: Seq<RecipeDetail>,
    request: Seq<RequestRecipe>,
)
    requires
        is_registration_plan(cmds, process_id, input.recipe_id_list@),
        forall|i: int| 0 <= i < regs.len() ==> (#[trigger] regs[i]).process_id != process_id,
        forall|i: int|
            0 <= i < input.recipe_id_list@.len() ==> select_recipe(recipes, (#[trigger] input.recipe_id_list@[i])@) is Some,
        reads_as(rows, select_process_recipes(registrations_after_plan(regs, cmds), recipes, process_id), perm),
        details.len() == rows.len(),
        forall|i: int| 0 <= i < rows.len() ==> (#[trigger] details[i]).id == (rows[i]->0).id,
        request.len() == details.len(),
        forall|i: int| 0 <= i < details.len() ==> is_request_recipe(#[trigger] request[i], details[i]),
    ensures
        forall|i: int| 0 <= i < rows.len() ==> (#[trigger] rows[i]) is Some,
        request.len() == input.recipe_id_list@.len(),
        forall|i: int| 0 <= i < request.len() ==> (#[trigger] request[i]).id@ == input.recipe_id_list@[perm[i]]@,
{
    let ids = input.recipe_id_list@;
    let n = ids.len() as int;
    lemma_registration_plan_prefix(regs, cmds, process_id, ids, n);
    assert(cmds.take(n) =~= cmds);
    lemma_process_recipes_appended(regs, recipes, process_id, ids, n);
    assert forall|i: int| 0 <= i < rows.len() implies (#[trigger] rows[i]) is Some by {
        assert(select_recipe(recipes, ids[perm[i]]@) is Some);
    }
    assert forall|i: int| 0 <= i < request.len() implies (#[trigger] request[i]).id@ == ids[perm[i]]@ by {
        assert(is_request_recipe(request[i], details[i]));
        assert(details[i].id == (rows[i]->0).id);
        lemma_select_recipe_found(recipes, ids[perm[i]]@);
    }
}

/// A recipe row that a lookup finds carries the key looked up.
proof fn lemma_select_recipe_found(t: Seq<RecipeRow>, id: Seq<char>)
    ensures
        select_recipe(t, id) matches Some(r) ==> r.id@ == id,
    decreases t.len(),
{
    if t.len() > 0 && t[0].id@ != id {
        lemma_select_recipe_found(t.drop_first(), id);
    }
}

/// The resources sent to the scheduler are exactly the used ones: each
/// entry of the request is a resource of `resources` whose id is in
/// `used`, with its amount; and each resource whose id is in `used` has an
/// entry.
pub proof fn lemma_request_resources_exact(resources: Seq<Resource>, used: Set<u64>)
    ensures
        forall|k: int|
            0 <= k < request_resources(resources, used).len() ==> {
                let e = #[trigger] request_resources(resources, used)[k];
                &&& used.contains(e.id)
                &&& exists|i: int|
                    0 <= i < resources.len() && resources[i].id == e.id && resources[i].amount
                        == e.amount
            },
        forall|i: int|
            0 <= i < resources.len() && used.contains(#[trigger] resources[i].id) ==> request_resources(
                resources,
                used,
            ).contains(RequestResource { id: resources[i].id, amount: resources[i].amount }),
    decreases resources.len(),
{
    if resources.len() > 0 {
        let init = resources.drop_last();
        lemma_request_resources_exact(init, used);
        let rest = request_resources(init, used);
        let res = request_resources(resources, used);
        let last = resources.last();
        assert forall|k: int| 0 <= k < res.len() implies {
            let e = #[trigger] res[k];
            &&& used.contains(e.id)
            &&& exists|i: int|
                0 <= i < resources.len() && resources[i].id == e.id && resources[i].amount == e.amount
        } by {
            if k < rest.len() {
                assert(res[k] == rest[k]);
                let e = rest[k];
                let i = choose|i: int|
                    0 <= i < init.len() && init[i].id == e.id && init[i].amount == e.amount;
                assert(resources[i] == init[i]);
            } else {
                assert(resources[resources.len() - 1] == last);
            }
        }
        assert forall|i: int|
            0 <= i < resources.len() && used.contains(#[trigger] resources[i].id) implies res.contains(
            RequestResource { id: resources[i].id, amount: resources[i].amount },
        ) by {
            let target = RequestResource { id: resources[i].id, amount: resources[i].amount };
            if i < init.len() {
                assert(init[i] == resources[i]);
                assert(rest.contains(target));
                let k = choose|k: int| 0 <= k < rest.len() && rest[k] == target;
                assert(res[k] == target);
            } else {
                assert(res[res.len() - 1] == target);
            }
        }
    }
}

/// The placed steps selected for a resource are exactly the placed steps
/// on it: each runs on `id` and is one of `outs`, and each step of `outs`
/// that runs on `id` is among them.
pub proof fn lemma_outputs_on_resource_exact(outs: Seq<StepOutput>, id: u64)
    ensures
        forall|j: int|
            0 <= j < outputs_on_resource(outs, id).len() ==> {
                &&& (#[trigger] outputs_on_resource(outs, id)[j]).resource_id == id
                &&& outs.contains(outputs_on_resource(outs, id)[j])
            },
        forall|i: int|
            0 <= i < outs.len() && (#[trigger] outs[i]).resource_id == id ==> outputs_on_resource(
                outs,
                id,
            ).contains(outs[i]),
    decreases outs.len(),
{
    if outs.len() > 0 {
        let init = outs.drop_last();
        lemma_outputs_on_resource_exact(init, id);
        let rest = outputs_on_resource(init, id);
        let placed = outputs_on_resource(outs, id);
        assert forall|j: int| 0 <= j < placed.len() implies {
            &&& (#[trigger] placed[j]).resource_id == id
            &&& outs.contains(placed[j])
        } by {
            if j < rest.len() {
                assert(placed[j] == rest[j]);
                let i = choose|i: int| 0 <= i < init.len() && init[i] == rest[j];
                assert(outs[i] == init[i]);
            } else {
                assert(outs[outs.len() - 1] == placed[j]);
            }
        }
        assert forall|i: int|
            0 <= i < outs.len() && (#[trigger] outs[i]).resource_id == id implies placed.contains(
            outs[i],
        ) by {
            if i < init.len() {
                assert(init[i] == outs[i]);
                let k = choose|k: int| 0 <= k < rest.len() && rest[k] == outs[i];
                assert(placed[k] == outs[i]);
            } else {
                assert(placed[placed.len() - 1] == outs[i]);
            }
        }
    }
}

/// In a scheduled process, every step listed under a resource runs on that
/// resource.
pub proof fn lemma_process_steps_on_their_resource(
    details: Seq<RecipeDetail>,
    resources: Seq<Resource>,
    response: ProcessResponse,
    p: Process,
)
    requires
        p.resource_infos@.len() == response.resource_infos@.len(),
        forall|k: int|
            0 <= k < response.resource_infos@.len() ==> is_resource_info(
                #[trigger] p.resource_infos@[k],
                details,
                resources,
                response.steps@,
                response.resource_infos@[k],
            ),
    ensures
        forall|k: int, j: int|
            0 <= k < p.resource_infos@.len() && 0 <= j < p.resource_infos@[k].steps@.len() ==> (
            #[trigger] p.resource_infos@[k].steps@[j]).resource_id == p.resource_infos@[k].id,
{
    assert forall|k: int, j: int|
        0 <= k < p.resource_infos@.len() && 0 <= j < p.resource_infos@[k].steps@.len() implies (
        #[trigger] p.resource_infos@[k].steps@[j]).resource_id == p.resource_infos@[k].id by {
        let info = p.resource_infos@[k];
        let id = response.resource_infos@[k].id as u64;
        assert(is_resource_info(info, details, resources, response.steps@, response.resource_infos@[k]));
        lemma_outputs_on_resource_exact(response.steps@, id);
        let placed = outputs_on_resource(response.steps@, id);
        assert(placed[j].resource_id == id);
    }
}

// ------------------------------------------------------------ resources

/// Looking up a key that only the appended row holds finds that row.
proof fn lemma_select_resource_appended(t: Seq<ResourceRow>, r: ResourceRow)
    requires
        forall|i: int| 0 <= i < t.len() ==> (#[trigger] t[i]).id != r.id,
    ensures
        select_resource(t.push(r), r.id) == Some(r),
    decreases t.len(),
{
    if t.len() > 0 {
        assert(t.push(r)[0] == t[0]);
        assert(t.push(r).drop_first() =~= t.drop_first().push(r));
        assert forall|i: int| 0 <= i < t.drop_first().len() implies (#[trigger] t.drop_first()[i]).id != r.id by {
            assert(t.drop_first()[i] == t[i + 1]);
        }
        lemma_select_resource_appended(t.drop_first(), r);
    } else {
        assert(t.push(r)[0] == r);
    }
}

/// Overwriting the row with key `id` makes a lookup of `id` find the new
/// values, where a row with that key exists.
proof fn lemma_select_resource_updated(t: Seq<ResourceRow>, id: u64, name: String, amount: i32)
    requires
        select_resource(t, id) is Some,
    ensures
        select_resource(
            resources_after(t, WriteCommand::UpdateResource { id, name, amount }, 0),
            id,
        ) == Some(ResourceRow { id, name, amount }),
    decreases t.len(),
{
    let cmd = WriteCommand::UpdateResource { id, name, amount };
    let t1 = resources_after(t, cmd, 0);
    if t[0].id != id {
        assert(t1.drop_first() =~= resources_after(t.drop_first(), cmd, 0));
        lemma_select_resource_updated(t.drop_first(), id, name, amount);
    }
}

/// A created resource reads back as created: after the statement that
/// stores `input`, under a key `assigned` that no stored row holds, the
/// lookup of `assigned` finds the row with the name and the amount of
/// `input`, which is the resource that `created_resource` returns.
pub proof fn lemma_created_resource_reads_back(t: Seq<ResourceRow>, input: CreateResourceInput, assigned: u64)
    requires
        forall|i: int| 0 <= i < t.len() ==> (#[trigger] t[i]).id != assigned,
    ensures
        ({
            let t1 = resources_after(
                t,
                WriteCommand::InsertResource { name: input.name, amount: input.amount },
                assigned,
            );
            &&& select_resource(t1, assigned) == Some(ResourceRow { id: assigned, name: input.name, amount: input.amount })
            &&& resource_of_row(select_resource(t1, assigned)->0) == (Resource {
                id: assigned,
                name: input.name,
                amount: input.amount,
            })
        }),
{
    lemma_select_resource_appended(t, ResourceRow { id: assigned, name: input.name, amount: input.amount });
}

/// A created resource is listed exactly once: where the listing is the
/// rows of the table after the creation, in any order, it holds the new
/// resource once, and no other entry carries its key.
pub proof fn lemma_created_resource_listed_once(
    t: Seq<ResourceRow>,
    input: CreateResourceInput,
    assigned: u64,
    rows: Seq<ResourceRow>,
    perm: Seq<int>,
    listing: Seq<Resource>,
)
    requires
        forall|i: int| 0 <= i < t.len() ==> (#[trigger] t[i]).id != assigned,
        reads_as(
            rows,
            resources_after(t, WriteCommand::InsertResource { name: input.name, amount: input.amount }, assigned),
            perm,
        ),
        listing.len() == rows.len(),
        forall|i: int| 0 <= i < rows.len() ==> #[trigger] listing[i] == resource_of_row(rows[i]),
    ensures
        exists|i: int|
            0 <= i < listing.len() && #[trigger] listing[i] == (Resource {
                id: assigned,
                name: input.name,
                amount: input.amount,
            }),
        forall|i: int, j: int|
            0 <= i < listing.len() && 0 <= j < listing.len() && (#[trigger] listing[i]).id == assigned
                && (#[trigger] listing[j]).id == assigned ==> i == j,
{
    let t1 = resources_after(t, WriteCommand::InsertResource { name: input.name, amount: input.amount }, assigned);
    let k = t.len() as int;
    assert(perm.contains(k));
    let i = choose|i: int| 0 <= i < perm.len() && perm[i] == k;
    assert(listing[i] == resource_of_row(rows[i]));
    assert forall|i: int, j: int|
        0 <= i < listing.len() && 0 <= j < listing.len() && (#[trigger] listing[i]).id == assigned
            && (#[trigger] listing[j]).id == assigned implies i == j by {
        assert(listing[i] == resource_of_row(rows[i]));
        assert(listing[j] == resource_of_row(rows[j]));
        assert(rows[i] == t1[perm[i]]);
        assert(rows[j] == t1[perm[j]]);
        if perm[i] < k {
            assert(t1[perm[i]] == t[perm[i]]);
        }
        if perm[j] < k {
            assert(t1[perm[j]] == t[perm[j]]);
        }
    }
}

/// An updated resource reads back as updated: where a row with the key of
/// `input` exists, after the update its lookup finds the name and the
/// amount of `input`.
pub proof fn lemma_updated_resource_reads_back(t: Seq<ResourceRow>, input: UpdateResourceInput)
    requires
        select_resource(t, input.id) is Some,
    ensures
        select_resource(
            resources_after(
                t,
                WriteCommand::UpdateResource { id: input.id, name: input.name, amount: input.amount },
                0,
            ),
            input.id,
        ) == Some(ResourceRow { id: input.id, name: input.name, amount: input.amount }),
{
    lemma_select_resource_updated(t, input.id, input.name, input.amount);
}

/// Running a resource update twice leaves the table as running it once.
pub proof fn lemma_resource_update_idempotent(t: Seq<ResourceRow>, input: UpdateResourceInput, assigned: u64)
    ensures
        ({
            let cmd = WriteCommand::UpdateResource { id: input.id, name: input.name, amount: input.amount };
            resources_after(resources_after(t, cmd, assigned), cmd, assigned) == resources_after(t, cmd, assigned)
        }),
{
    let cmd = WriteCommand::UpdateResource { id: input.id, name: input.name, amount: input.amount };
    assert(resources_after(resources_after(t, cmd, assigned), cmd, assigned) =~= resources_after(t, cmd, assigned));
}

// ------------------------------------------------------ recipe updates

/// The stored step `s` after the statements `cmds`, in order, where the
/// statements change rows in place.
pub open spec fn step_after_all(s: StoredStep, cmds: Seq<WriteCommand>) -> StoredStep
    decreases cmds.len(),
{
    if cmds.len() == 0 {
        s
    } else {
        step_after(step_after_all(s, cmds.drop_last()), cmds.last())
    }
}

/// `cmd` overwrites a stored step with the key `step_id` of the recipe
/// `recipe_id`.
pub open spec fn touches_step(cmd: WriteCommand, step_id: Seq<char>, recipe_id: Seq<char>) -> bool {
    match cmd {
        WriteCommand::UpdateStep { id, recipe_id: r, .. } => id@ == step_id && r@ == recipe_id,
        _ => false,
    }
}

/// The position of the last statement of `cmds` that overwrites the stored
/// step with the given keys; -1 where none does.
pub open spec fn last_touch(cmds: Seq<WriteCommand>, step_id: Seq<char>, recipe_id: Seq<char>) -> int
    decreases cmds.len(),
{
    if cmds.len() == 0 {
        -1
    } else if touches_step(cmds.last(), step_id, recipe_id) {
        cmds.len() - 1
    } else {
        last_touch(cmds.drop_last(), step_id, recipe_id)
    }
}

/// `last_touch` is the last statement that overwrites the step, or -1.
proof fn lemma_last_touch(cmds: Seq<WriteCommand>, step_id: Seq<char>, recipe_id: Seq<char>)
    ensures
        -1 <= last_touch(cmds, step_id, recipe_id) < cmds.len(),
        last_touch(cmds, step_id, recipe_id) >= 0 ==> touches_step(
            cmds[last_touch(cmds, step_id, recipe_id)],
            step_id,
            recipe_id,
        ),
        forall|j: int|
            last_touch(cmds, step_id, recipe_id) < j < cmds.len() ==> !touches_step(
                #[trigger] cmds[j],
                step_id,
                recipe_id,
            ),
    decreases cmds.len(),
{
    if cmds.len() > 0 {
        lemma_last_touch(cmds.drop_last(), step_id, recipe_id);
        let l = last_touch(cmds.drop_last(), step_id, recipe_id);
        if l >= 0 {
            assert(cmds.drop_last()[l] == cmds[l]);
        }
        assert forall|j: int|
            last_touch(cmds, step_id, recipe_id) < j < cmds.len() implies !touches_step(
            #[trigger] cmds[j],
            step_id,
            recipe_id,
        ) by {
            if j < cmds.len() - 1 {
                assert(cmds.drop_last()[j] == cmds[j]);
            }
        }
    }
}

/// A stored step after in-place statements keeps its keys, and is the
/// step as the last statement that overwrites it leaves it (or unchanged,
/// where none does).
proof fn lemma_step_after_all(s: StoredStep, cmds: Seq<WriteCommand>)
    ensures
        step_after_all(s, cmds).recipe_id == s.recipe_id,
        step_after_all(s, cmds).row.id == s.row.id,
        step_after_all(s, cmds) == (if last_touch(cmds, s.row.id@, s.recipe_id@) < 0 {
            s
        } else {
            step_after(s, cmds[last_touch(cmds, s.row.id@, s.recipe_id@)])
        }),
    decreases cmds.len(),
{
    if cmds.len() > 0 {
        let init = cmds.drop_last();
        lemma_step_after_all(s, init);
        lemma_last_touch(init, s.row.id@, s.recipe_id@);
        let l = last_touch(init, s.row.id@, s.recipe_id@);
        if l >= 0 {
            assert(init[l] == cmds[l]);
        }
    }
}

/// Only `UpdateStep` statements change the `steps` table, each row by row.
pub open spec fn changes_steps_in_place(cmds: Seq<WriteCommand>) -> bool {
    forall|i: int| 0 <= i < cmds.len() ==> !(#[trigger] cmds[i] is InsertStep)
}

/// In-place statements act on the `steps` table row by row.
proof fn lemma_steps_after_plan_rowwise(t: Seq<StoredStep>, cmds: Seq<WriteCommand>)
    requires
        changes_steps_in_place(cmds),
    ensures
        steps_after_plan(t, cmds) == t.map_values(|s: StoredStep| step_after_all(s, cmds)),
    decreases cmds.len(),
{
    if cmds.len() == 0 {
        assert(t.map_values(|s: StoredStep| step_after_all(s, cmds)) =~= t);
    } else {
        let init = cmds.drop_last();
        assert forall|i: int| 0 <= i < init.len() implies !(#[trigger] init[i] is InsertStep) by {
            assert(init[i] == cmds[i]);
        }
        lemma_steps_after_plan_rowwise(t, init);
        assert(!(cmds[cmds.len() - 1] is InsertStep));
        assert(steps_after_plan(t, cmds) =~= t.map_values(|s: StoredStep| step_after_all(s, cmds)));
    }
}

/// The stored steps that a select finds belong to the recipe selected.
proof fn lemma_stored_steps_of_recipe(t: Seq<StoredStep>, rid: Seq<char>)
    ensures
        forall|k: int| 0 <= k < stored_steps_of(t, rid).len() ==> (#[trigger] stored_steps_of(t, rid)[k]).recipe_id@ == rid,
    decreases t.len(),
{
    if t.len() > 0 {
        lemma_stored_steps_of_recipe(t.drop_last(), rid);
        let rest = stored_steps_of(t.drop_last(), rid);
        if t.last().recipe_id@ == rid {
            assert forall|k: int| 0 <= k < rest.len() + 1 implies (#[trigger] rest.push(t.last())[k]).recipe_id@ == rid by {
                if k < rest.len() {
                    assert(rest.push(t.last())[k] == rest[k]);
                }
            }
        }
    }
}

/// Selecting the steps of a recipe commutes with in-place statements,
/// which keep every row's recipe.
proof fn lemma_stored_steps_of_rowwise(t: Seq<StoredStep>, cmds: Seq<WriteCommand>, rid: Seq<char>)
    ensures
        stored_steps_of(t.map_values(|s: StoredStep| step_after_all(s, cmds)), rid) == stored_steps_of(
            t,
            rid,
        ).map_values(|s: StoredStep| step_after_all(s, cmds)),
    decreases t.len(),
{
    let f = |s: StoredStep| step_after_all(s, cmds);
    if t.len() == 0 {
        assert(t.map_values(f) =~= Seq::<StoredStep>::empty());
        assert(stored_steps_of(t, rid).map_values(f) =~= Seq::<StoredStep>::empty());
    } else {
        lemma_stored_steps_of_rowwise(t.drop_last(), cmds, rid);
        assert(t.map_values(f).drop_last() =~= t.drop_last().map_values(f));
        lemma_step_after_all(t.last(), cmds);
        assert(t.map_values(f).last() == f(t.last()));
        let rest = stored_steps_of(t.drop_last(), rid);
        if t.last().recipe_id@ == rid {
            assert(rest.push(t.last()).map_values(f) =~= rest.map_values(f).push(f(t.last())));
        }
    }
}

/// The update plan changes the `recipes` table only by its first
/// statement.
proof fn lemma_update_plan_recipes(t: Seq<RecipeRow>, detail: RecipeDetail, cmds: Seq<WriteCommand>, k: int)
    requires
        is_update_plan(cmds, detail),
        0 <= k <= detail.steps@.len(),
    ensures
        recipes_after_plan(t, cmds.take(k + 1)) == recipes_after(t, update_recipe_command(detail)),
    decreases k,
{
    assert(cmds.take(k + 1).drop_last() =~= cmds.take(k));
    assert(cmds.take(k + 1).last() == cmds[k]);
    if k == 0 {
        assert(cmds.take(0) =~= Seq::<WriteCommand>::empty());
        assert(recipes_after_plan(t, cmds.take(0)) == t);
    } else {
        lemma_update_plan_recipes(t, detail, cmds, k - 1);
        assert(cmds[(k - 1) + 1] == update_step_command(detail.id, detail.steps@[k - 1]));
    }
}

/// The update plan adds no step row.
proof fn lemma_update_plan_in_place(detail: RecipeDetail, cmds: Seq<WriteCommand>)
    requires
        is_update_plan(cmds, detail),
    ensures
        changes_steps_in_place(cmds),
{
    assert forall|i: int| 0 <= i < cmds.len() implies !(#[trigger] cmds[i] is InsertStep) by {
        if i > 0 {
            assert(cmds[(i - 1) + 1] == update_step_command(detail.id, detail.steps@[i - 1]));
        }
    }
}

/// The update of a recipe leaves the steps of every other recipe alone: a
/// stored step whose recipe is not `detail`'s is the same after the plan.
pub proof fn lemma_update_leaves_other_recipes_steps(
    steps: Seq<StoredStep>,
    detail: RecipeDetail,
    cmds: Seq<WriteCommand>,
    i: int,
)
    requires
        is_update_plan(cmds, detail),
        0 <= i < steps.len(),
        steps[i].recipe_id@ != detail.id@,
    ensures
        steps_after_plan(steps, cmds)[i] == steps[i],
{
    lemma_update_plan_in_place(detail, cmds);
    lemma_steps_after_plan_rowwise(steps, cmds);
    lemma_step_after_all(steps[i], cmds);
    lemma_last_touch(cmds, steps[i].row.id@, steps[i].recipe_id@);
    let l = last_touch(cmds, steps[i].row.id@, steps[i].recipe_id@);
    if l > 0 {
        assert(cmds[(l - 1) + 1] == update_step_command(detail.id, detail.steps@[l - 1]));
    }
}

/// Running the update of a recipe twice leaves the `recipes` and `steps`
/// tables as running it once.
pub proof fn lemma_recipe_update_idempotent(
    recipes: Seq<RecipeRow>,
    steps: Seq<StoredStep>,
    detail: RecipeDetail,
    cmds: Seq<WriteCommand>,
)
    requires
        is_update_plan(cmds, detail),
    ensures
        recipes_after_plan(recipes_after_plan(recipes, cmds), cmds) == recipes_after_plan(recipes, cmds),
        steps_after_plan(steps_after_plan(steps, cmds), cmds) == steps_after_plan(steps, cmds),
{
    let n = detail.steps@.len() as int;
    assert(cmds.take(n + 1) =~= cmds);
    lemma_update_plan_recipes(recipes, detail, cmds, n);
    let once = recipes_after_plan(recipes, cmds);
    lemma_update_plan_recipes(once, detail, cmds, n);
    assert(recipes_after(once, update_recipe_command(detail)) =~= once);

    lemma_update_plan_in_place(detail, cmds);
    lemma_steps_after_plan_rowwise(steps, cmds);
    let t1 = steps_after_plan(steps, cmds);
    lemma_steps_after_plan_rowwise(t1, cmds);
    assert forall|i: int| 0 <= i < t1.len() implies step_after_all(#[trigger] t1[i], cmds) == t1[i] by {
        let s = steps[i];
        lemma_step_after_all(s, cmds);
        lemma_step_after_all(t1[i], cmds);
    }
    assert(steps_after_plan(t1, cmds) =~= t1);
}

/// Overwriting the recipe row with key `id` makes a lookup of `id` find the
/// new title and description, where such a row exists.
proof fn lemma_select_recipe_updated(t: Seq<RecipeRow>, detail: RecipeDetail)
    requires
        select_recipe(t, detail.id@) is Some,
    ensures
        select_recipe(recipes_after(t, update_recipe_command(detail)), detail.id@) == Some(RecipeRow {
            id: select_recipe(t, detail.id@)->0.id,
            title: detail.title,
            description: detail.description,
        }),
    decreases t.len(),
{
    let cmd = update_recipe_command(detail);
    if t[0].id@ != detail.id@ {
        assert(recipes_after(t, cmd).drop_first() =~= recipes_after(t.drop_first(), cmd));
        lemma_select_recipe_updated(t.drop_first(), detail);
    }
}

/// The composition of two reorderings is a reordering.
proof fn lemma_reordering_compose(p0: Seq<int>, p1: Seq<int>, n: int)
    requires
        is_reordering(p0, n),
        is_reordering(p1, n),
    ensures
        is_reordering(Seq::new(n as nat, |i: int| p0[p1[i]]), n),
{
    let q = Seq::new(n as nat, |i: int| p0[p1[i]]);
    assert forall|k: int| 0 <= k < n implies #[trigger] q.contains(k) by {
        assert(p0.contains(k));
        let i0 = choose|i0: int| 0 <= i0 < p0.len() && p0[i0] == k;
        assert(p1.contains(i0));
        let i = choose|i: int| 0 <= i < p1.len() && p1[i] == i0;
        assert(q[i] == k);
    }
}

/// An updated recipe reads back as updated. Where a recipe row with
/// `detail`'s id is stored, the ids of `detail`'s steps differ from each
/// other, and the stored steps of the recipe are `detail`'s steps by id in
/// the order `perm0`: after the update the lookup of the recipe finds it;
/// and a recipe read from that row and from its step rows, returned in the
/// order `perm`, has `detail`'s id (as text), title and description, and
/// `detail`'s steps (ids as text) reordered by `perm0` after `perm`.
pub proof fn lemma_updated_recipe_reads_back(
    recipes: Seq<RecipeRow>,
    steps: Seq<StoredStep>,
    detail: RecipeDetail,
    cmds: Seq<WriteCommand>,
    perm0: Seq<int>,
    step_rows: Seq<StepRow>,
    perm: Seq<int>,
    read: RecipeDetail,
)
    requires
        is_update_plan(cmds, detail),
        select_recipe(recipes, detail.id@) is Some,
        forall|i: int, j: int|
            0 <= i < detail.steps@.len() && 0 <= j < detail.steps@.len() && i != j ==> (
            #[trigger] detail.steps@[i]).id@ != (#[trigger] detail.steps@[j]).id@,
        is_reordering(perm0, detail.steps@.len() as int),
        stored_steps_of(steps, detail.id@).len() == detail.steps@.len(),
        forall|k: int|
            0 <= k < detail.steps@.len() ==> (#[trigger] stored_steps_of(steps, detail.id@)[k]).row.id@
                == detail.steps@[perm0[k]].id@,
        reads_as(step_rows, select_steps(steps_after_plan(steps, cmds), detail.id@), perm),
        is_detail_of_rows(read, select_recipe(recipes_after_plan(recipes, cmds), detail.id@)->0, step_rows),
    ensures
        select_recipe(recipes_after_plan(recipes, cmds), detail.id@) is Some,
        read.id@ == detail.id@,
        read.title == detail.title,
        read.description == detail.description,
        read.steps@.len() == detail.steps@.len(),
        is_reordering(Seq::new(detail.steps@.len(), |i: int| perm0[perm[i]]), detail.steps@.len() as int),
        forall|i: int|
            0 <= i < read.steps@.len() ==> {
                let s = detail.steps@[perm0[perm[i]]];
                &&& (#[trigger] read.steps@[i]).id@ == s.id@
                &&& read.steps@[i].description == s.description
                &&& read.steps@[i].resource_id == s.resource_id
                &&& read.steps@[i].order_number == s.order_number
                &&& read.steps@[i].duration == s.duration
            },
{
    let n = detail.steps@.len() as int;
    assert(cmds.take(n + 1) =~= cmds);
    lemma_update_plan_recipes(recipes, detail, cmds, n);
    lemma_select_recipe_updated(recipes, detail);
    lemma_select_recipe_found(recipes, detail.id@);

    lemma_update_plan_in_place(detail, cmds);
    lemma_steps_after_plan_rowwise(steps, cmds);
    lemma_stored_steps_of_rowwise(steps, cmds, detail.id@);
    lemma_stored_steps_of_recipe(steps, detail.id@);
    let st = stored_steps_of(steps, detail.id@);
    let table = select_steps(steps_after_plan(steps, cmds), detail.id@);
    lemma_reordering_compose(perm0, perm, n);
    assert forall|i: int| 0 <= i < read.steps@.len() implies {
        let s = detail.steps@[perm0[perm[i]]];
        &&& (#[trigger] read.steps@[i]).id@ == s.id@
        &&& read.steps@[i].description == s.description
        &&& read.steps@[i].resource_id == s.resource_id
        &&& read.steps@[i].order_number == s.order_number
        &&& read.steps@[i].duration == s.duration
    } by {
        let k = perm[i];
        let p = perm0[k];
        let x = st[k];
        assert(step_rows[i] == table[k]);
        assert(read.steps@[i] == step_of_row(step_rows[i]));
        lemma_step_after_all(x, cmds);
        lemma_last_touch(cmds, x.row.id@, x.recipe_id@);
        let l = last_touch(cmds, x.row.id@, x.recipe_id@);
        assert(cmds[p + 1] == update_step_command(detail.id, detail.steps@[p]));
        assert(touches_step(cmds[p + 1], x.row.id@, x.recipe_id@));
        if l != p + 1 {
            if l > 0 {
                assert(cmds[(l - 1) + 1] == update_step_command(detail.id, detail.steps@[l - 1]));
            }
        }
        assert(l == p + 1);
    }
}

// ------------------------------------------------------------ processes

/// A created process is stored under the key the database assigned, with
/// the name `process`: after the statement of `insert_process_command`,
/// under a key `assigned` that no stored process holds, the lookup of
/// `assigned` finds that row.
pub proof fn lemma_created_process_stored(t: Seq<StoredProcess>, cmd: WriteCommand, assigned: u64)
    requires
        cmd matches WriteCommand::InsertProcess { name } && name@ == "process"@,
        forall|i: int| 0 <= i < t.len() ==> (#[trigger] t[i]).id != assigned,
    ensures
        select_process(processes_after(t, cmd, assigned), assigned) matches Some(p) && p.id == assigned
            && p.name@ == "process"@,
    decreases t.len(),
{
    if t.len() > 0 {
        assert(processes_after(t, cmd, assigned)[0] == t[0]);
        assert(processes_after(t, cmd, assigned).drop_first() =~= processes_after(t.drop_first(), cmd, assigned));
        assert forall|i: int| 0 <= i < t.drop_first().len() implies (#[trigger] t.drop_first()[i]).id != assigned by {
            assert(t.drop_first()[i] == t[i + 1]);
        }
        lemma_created_process_stored(t.drop_first(), cmd, assigned);
    } else {
        assert(processes_after(t, cmd, assigned)[0].id == assigned);
    }
}

/// The resources sent to the scheduler are those of `resources` whose id is
/// used, kept in the order of `resources`, each with its id and amount.
pub proof fn lemma_request_resources_filter(resources: Seq<Resource>, used: Set<u64>)
    ensures
        request_resources(resources, used) == resources.filter(|r: Resource| used.contains(r.id)).map_values(
            |r: Resource| RequestResource { id: r.id, amount: r.amount },
        ),
    decreases resources.len(),
{
    reveal(Seq::filter);
    let pred = |r: Resource| used.contains(r.id);
    let conv = |r: Resource| RequestResource { id: r.id, amount: r.amount };
    if resources.len() == 0 {
        assert(resources.filter(pred).map_values(conv) =~= Seq::<RequestResource>::empty());
    } else {
        lemma_request_resources_filter(resources.drop_last(), used);
        let rest = resources.drop_last().filter(pred);
        if pred(resources.last()) {
            assert(rest.push(resources.last()).map_values(conv) =~= rest.map_values(conv).push(
                conv(resources.last()),
            ));
        }
    }
}

/// The placed steps listed for a resource are the placed steps of the
/// answer that run on it, kept in the answer's order.
pub proof fn lemma_outputs_on_resource_filter(outs: Seq<StepOutput>, id: u64)
    ensures
        outputs_on_resource(outs, id) == outs.filter(|o: StepOutput| o.resource_id == id),
    decreases outs.len(),
{
    reveal(Seq::filter);
    if outs.len() > 0 {
        lemma_outputs_on_resource_filter(outs.drop_last(), id);
    }
}

} // verus!
