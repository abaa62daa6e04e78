//! The exchange with the scheduling service: the request built from the
//! recipes of a process and the resources they use, and the process made of
//! the service's answer.
use vstd::prelude::*;
use std::collections::HashSet;
use crate::laws::{lemma_request_resources_exact, lemma_request_resources_filter};
use crate::object::{Process, RecipeDetail, Resource, ResourceInfo, Step, StepResult};

verus! {

broadcast use vstd::std_specs::hash::group_hash_axioms;

/// A step as the scheduling service receives it.
#[derive(Debug)]
pub struct RequestStep {
    pub id: String,
    pub recipe_id: String,
    pub resource_id: u64,
    pub duration: i32,
    pub order_number: u32,
}

/// A recipe as the scheduling service receives it.
#[derive(Debug)]
pub struct RequestRecipe {
    pub id: String,
    pub steps: Vec<RequestStep>,
}

/// A resource as the scheduling service receives it.
#[derive(Debug)]
pub struct RequestResource {
    pub id: u64,
    pub amount: i32,
}

/// What the scheduling service is asked to schedule.
#[derive(Debug)]
pub struct ProcessRequest {
    pub recipes: Vec<RequestRecipe>,
    pub resources: Vec<RequestResource>,
}

/// A step as the scheduling service placed it.
#[derive(Debug)]
pub struct StepOutput {
    pub step_id: String,
    pub recipe_id: String,
    pub resource_id: u64,
    pub start_time: i32,
    pub duration: i32,
    pub time_line_index: i32,
}

/// A resource as the scheduling service reports it.
#[derive(Debug)]
pub struct ResourceInfoOutput {
    pub id: i64,
    pub is_used_multiple_resources: bool,
    pub used_resources_count: i32,
}

/// The scheduling service's answer.
#[derive(Debug)]
pub struct ProcessResponse {
    pub steps: Vec<StepOutput>,
    pub resource_infos: Vec<ResourceInfoOutput>,
}

// ---------------------------------------------------------------- request

/// `step` of the recipe `recipe_id`, as the service receives it.
pub open spec fn request_step(recipe_id: String, step: Step) -> RequestStep {
    RequestStep {
        id: step.id,
        recipe_id,
        resource_id: step.resource_id,
        duration: step.duration,
        order_number: step.order_number,
    }
}

/// `r` is `detail` as the service receives it: its id and each of its
/// steps, in order, tagged with the recipe's id.
pub open spec fn is_request_recipe(r: RequestRecipe, detail: RecipeDetail) -> bool {
    &&& r.id == detail.id
    &&& r.steps@.len() == detail.steps@.len()
    &&& forall|j: int|
        0 <= j < detail.steps@.len() ==> #[trigger] r.steps@[j] == request_step(
            detail.id,
            detail.steps@[j],
        )
}

/// The ids of the resources that some step of some recipe of `details`
/// runs on.
pub open spec fn used_resource_ids(details: Seq<RecipeDetail>) -> Set<u64> {
    Set::new(
        |id: u64|
            exists|a: int, b: int|
                0 <= a < details.len() && 0 <= b < details[a].steps@.len()
                    && #[trigger] details[a].steps@[b].resource_id == id,
    )
}

/// The resource ids of the steps that come before step `j` of recipe `i`.
pub open spec fn ids_before(details: Seq<RecipeDetail>, i: int, j: int) -> Set<u64> {
    Set::new(
        |id: u64|
            exists|a: int, b: int|
                0 <= a < details.len() && 0 <= b < details[a].steps@.len() && (a < i || (a == i
                    && b < j)) && #[trigger] details[a].steps@[b].resource_id == id,
    )
}

/// The resources of `resources` whose id is in `used`, in their order, as
/// the service receives them.
pub open spec fn request_resources(resources: Seq<Resource>, used: Set<u64>) -> Seq<RequestResource>
    decreases resources.len(),
{
    if resources.len() == 0 {
        Seq::empty()
    } else {
        let rest = request_resources(resources.drop_last(), used);
        let r = resources.last();
        if used.contains(r.id) {
            rest.push(RequestResource { id: r.id, amount: r.amount })
        } else {
            rest
        }
    }
}

/// `detail` as the service receives it.
pub fn request_recipe(detail: &RecipeDetail) -> (r: RequestRecipe)
    ensures
        is_request_recipe(r, *detail),
        r.id == detail.id,
        r.steps@.len() == detail.steps@.len(),
        forall|j: int|
            0 <= j < detail.steps@.len() ==> {
                &&& (#[trigger] r.steps@[j]).id == detail.steps@[j].id
                &&& r.steps@[j].recipe_id == detail.id
                &&& r.steps@[j].resource_id == detail.steps@[j].resource_id
                &&& r.steps@[j].duration == detail.steps@[j].duration
                &&& r.steps@[j].order_number == detail.steps@[j].order_number
            },
{
    let mut steps: Vec<RequestStep> = Vec::new();
    let n = detail.steps.len();
    let mut j: usize = 0;
    while j < n
        invariant
            n == detail.steps@.len(),
            j <= n,
            steps@.len() == j,
            forall|k: int|
                0 <= k < j ==> #[trigger] steps@[k] == request_step(detail.id, detail.steps@[k]),
        decreases n - j,
    {
        let s = &detail.steps[j];
        steps.push(
            RequestStep {
                id: s.id.clone(),
                recipe_id: detail.id.clone(),
                resource_id: s.resource_id,
                duration: s.duration,
                order_number: s.order_number,
            },
        );
        j = j + 1;
    }
    let r = RequestRecipe { id: detail.id.clone(), steps };
    proof {
        lemma_request_recipe_fields(r, *detail);
    }
    r
}

/// The set of the resource ids that the steps of `details` run on.
pub fn collect_used_resource_ids(details: &Vec<RecipeDetail>) -> (ids: HashSet<u64>)
    ensures
        ids@ == used_resource_ids(details@),
        forall|a: int, b: int|
            0 <= a < details@.len() && 0 <= b < details@[a].steps@.len() ==> ids@.contains(
                (#[trigger] details@[a].steps@[b]).resource_id,
            ),
        forall|id: u64|
            #[trigger] ids@.contains(id) ==> exists|a: int, b: int|
                0 <= a < details@.len() && 0 <= b < details@[a].steps@.len()
                    && (#[trigger] details@[a].steps@[b]).resource_id == id,
{
    let mut ids: HashSet<u64> = HashSet::new();
    let n = details.len();
    let mut i: usize = 0;
    assert(ids@ =~= ids_before(details@, 0, 0));
    while i < n
        invariant
            n == details@.len(),
            i <= n,
            ids@ == ids_before(details@, i as int, 0),
        decreases n - i,
    {
        let steps = &details[i].steps;
        let m = steps.len();
        let mut j: usize = 0;
        while j < m
            invariant
                n == details@.len(),
                i < n,
                steps == details@[i as int].steps,
                m == steps@.len(),
                j <= m,
                ids@ == ids_before(details@, i as int, j as int),
            decreases m - j,
        {
            let rid = steps[j].resource_id;
            ids.insert(rid);
            assert(ids@ =~= ids_before(details@, i as int, j + 1)) by {
                assert(details@[i as int].steps@[j as int].resource_id == rid);
            }
            j = j + 1;
        }
        assert(ids_before(details@, i as int, m as int) =~= ids_before(details@, i + 1, 0));
        i = i + 1;
    }
    assert(ids_before(details@, n as int, 0) =~= used_resource_ids(details@));
    proof {
        lemma_used_resource_ids_exact(details@);
    }
    ids
}

/// The resources of `resources` whose id is in `used`, in their order, as
/// the service receives them.
pub fn used_resources(resources: &Vec<Resource>, used: &HashSet<u64>) -> (res: Vec<RequestResource>)
    ensures
        res@ == request_resources(resources@, used@),
{
    let mut res: Vec<RequestResource> = Vec::new();
    let n = resources.len();
    let mut i: usize = 0;
    assert(resources@.take(0) =~= Seq::<Resource>::empty());
    while i < n
        invariant
            n == resources@.len(),
            i <= n,
            res@ == request_resources(resources@.take(i as int), used@),
        decreases n - i,
    {
        let r = &resources[i];
        assert(resources@.take(i + 1).drop_last() =~= resources@.take(i as int));
        if used.contains(&r.id) {
            res.push(RequestResource { id: r.id, amount: r.amount });
        }
        i = i + 1;
    }
    assert(resources@.take(n as int) =~= resources@);
    res
}

/// The request built for `details` and `resources` says, field by field, what
/// the scheduler is told: each step of each recipe with its own id, resource,
/// duration and order number and its recipe's id; and exactly the resources
/// of `resources` that some step of some recipe runs on, with their amounts.
pub proof fn lemma_process_request_fields(req: ProcessRequest, details: Seq<RecipeDetail>, resources: Seq<Resource>)
    requires
        req.recipes@.len() == details.len(),
        forall|i: int| 0 <= i < details.len() ==> is_request_recipe(#[trigger] req.recipes@[i], details[i]),
        req.resources@ == request_resources(resources, used_resource_ids(details)),
    ensures
        forall|i: int, j: int|
            0 <= i < details.len() && 0 <= j < details[i].steps@.len() ==> {
                &&& (#[trigger] req.recipes@[i].steps@[j]).id == details[i].steps@[j].id
                &&& req.recipes@[i].id == details[i].id
                &&& req.recipes@[i].steps@[j].recipe_id == details[i].id
                &&& req.recipes@[i].steps@[j].resource_id == details[i].steps@[j].resource_id
                &&& req.recipes@[i].steps@[j].duration == details[i].steps@[j].duration
                &&& req.recipes@[i].steps@[j].order_number == details[i].steps@[j].order_number
            },
        forall|e: RequestResource|
            #[trigger] req.resources@.contains(e) ==> exists|i: int|
                #![trigger resources[i]]
                0 <= i < resources.len() && resources[i].id == e.id && resources[i].amount == e.amount,
        forall|e: RequestResource|
            #[trigger] req.resources@.contains(e) ==> exists|a: int, b: int|
                #![trigger details[a].steps@[b]]
                0 <= a < details.len() && 0 <= b < details[a].steps@.len() && details[a].steps@[b].resource_id == e.id,
        forall|i: int, a: int, b: int|
            0 <= i < resources.len() && 0 <= a < details.len() && 0 <= b < details[a].steps@.len()
                && #[trigger] resources[i].id == (#[trigger] details[a].steps@[b]).resource_id
                ==> req.resources@.contains(RequestResource { id: resources[i].id, amount: resources[i].amount }),
{
    lemma_request_resources_exact(resources, used_resource_ids(details));
    lemma_used_resource_ids_exact(details);
    assert forall|i: int, j: int|
        0 <= i < details.len() && 0 <= j < details[i].steps@.len() implies {
            &&& (#[trigger] req.recipes@[i].steps@[j]).id == details[i].steps@[j].id
            &&& req.recipes@[i].id == details[i].id
            &&& req.recipes@[i].steps@[j].recipe_id == details[i].id
            &&& req.recipes@[i].steps@[j].resource_id == details[i].steps@[j].resource_id
            &&& req.recipes@[i].steps@[j].duration == details[i].steps@[j].duration
            &&& req.recipes@[i].steps@[j].order_number == details[i].steps@[j].order_number
        } by {
        lemma_request_recipe_fields(req.recipes@[i], details[i]);
    }
    assert forall|e: RequestResource| #[trigger] req.resources@.contains(e) implies {
        &&& exists|i: int|
            #![trigger resources[i]]
            0 <= i < resources.len() && resources[i].id == e.id && resources[i].amount == e.amount
        &&& exists|a: int, b: int|
            #![trigger details[a].steps@[b]]
            0 <= a < details.len() && 0 <= b < details[a].steps@.len() && details[a].steps@[b].resource_id == e.id
    } by {
        let k = choose|k: int| 0 <= k < req.resources@.len() && req.resources@[k] == e;
        assert(e == request_resources(resources, used_resource_ids(details))[k]);
        assert(used_resource_ids(details).contains(e.id));
        let (a, b) = choose|a: int, b: int|
            0 <= a < details.len() && 0 <= b < details[a].steps@.len() && #[trigger] details[a].steps@[b].resource_id
                == e.id;
        assert(details[a].steps@[b].resource_id == e.id);
    }
}

/// The request for scheduling the recipes `details`: each recipe with its
/// steps, in order, and those of `resources` that some step runs on, in the
/// order of `resources`.
pub fn build_process_request(details: &Vec<RecipeDetail>, resources: &Vec<Resource>) -> (req: ProcessRequest)
    ensures
        req.recipes@.len() == details@.len(),
        forall|i: int| 0 <= i < details@.len() ==> is_request_recipe(#[trigger] req.recipes@[i], details@[i]),
        req.resources@ == request_resources(resources@, used_resource_ids(details@)),
        req.resources@ == resources@.filter(
            |r: Resource|
                exists|a: int, b: int|
                    0 <= a < details@.len() && 0 <= b < details@[a].steps@.len()
                        && #[trigger] details@[a].steps@[b].resource_id == r.id,
        ).map_values(|r: Resource| RequestResource { id: r.id, amount: r.amount }),
        forall|i: int, j: int|
            0 <= i < details@.len() && 0 <= j < details@[i].steps@.len() ==> {
                &&& (#[trigger] req.recipes@[i].steps@[j]).id == details@[i].steps@[j].id
                &&& req.recipes@[i].id == details@[i].id
                &&& req.recipes@[i].steps@[j].recipe_id == details@[i].id
                &&& req.recipes@[i].steps@[j].resource_id == details@[i].steps@[j].resource_id
                &&& req.recipes@[i].steps@[j].duration == details@[i].steps@[j].duration
                &&& req.recipes@[i].steps@[j].order_number == details@[i].steps@[j].order_number
            },
        forall|e: RequestResource|
            #[trigger] req.resources@.contains(e) ==> exists|i: int|
                #![trigger resources@[i]]
                0 <= i < resources@.len() && resources@[i].id == e.id && resources@[i].amount == e.amount,
        forall|e: RequestResource|
            #[trigger] req.resources@.contains(e) ==> exists|a: int, b: int|
                #![trigger details@[a].steps@[b]]
                0 <= a < details@.len() && 0 <= b < details@[a].steps@.len() && details@[a].steps@[b].resource_id == e.id,
        forall|i: int, a: int, b: int|
            0 <= i < resources@.len() && 0 <= a < details@.len() && 0 <= b < details@[a].steps@.len()
                && #[trigger] resources@[i].id == (#[trigger] details@[a].steps@[b]).resource_id
                ==> req.resources@.contains(RequestResource { id: resources@[i].id, amount: resources@[i].amount }),
{
    let used = collect_used_resource_ids(details);
    let mut recipes: Vec<RequestRecipe> = Vec::new();
    let n = details.len();
    let mut i: usize = 0;
    while i < n
        invariant
            n == details@.len(),
            i <= n,
            recipes@.len() == i,
            forall|k: int| 0 <= k < i ==> is_request_recipe(#[trigger] recipes@[k], details@[k]),
        decreases n - i,
    {
        recipes.push(request_recipe(&details[i]));
        i = i + 1;
    }
    let res = used_resources(resources, &used);
    let req = ProcessRequest { recipes, resources: res };
    proof {
        lemma_process_request_fields(req, details@, resources@);
        lemma_request_resources_filter(resources@, used_resource_ids(details@));
        let uses = |r: Resource|
            exists|a: int, b: int|
                0 <= a < details@.len() && 0 <= b < details@[a].steps@.len()
                    && #[trigger] details@[a].steps@[b].resource_id == r.id;
        assert((|r: Resource| used_resource_ids(details@).contains(r.id)) =~= uses);
    }
    req
}

// ---------------------------------------------------------------- answer

/// The first recipe of `details` with the id `id`.
pub open spec fn find_detail(details: Seq<RecipeDetail>, id: Seq<char>) -> Option<RecipeDetail>
    decreases details.len(),
{
    if details.len() == 0 {
        None
    } else if details[0].id@ == id {
        Some(details[0])
    } else {
        find_detail(details.drop_first(), id)
    }
}

/// The first step of `steps` with the id `id`.
pub open spec fn find_step(steps: Seq<Step>, id: Seq<char>) -> Option<Step>
    decreases steps.len(),
{
    if steps.len() == 0 {
        None
    } else if steps[0].id@ == id {
        Some(steps[0])
    } else {
        find_step(steps.drop_first(), id)
    }
}

/// The first resource of `resources` with the id `id`.
pub open spec fn find_resource(resources: Seq<Resource>, id: u64) -> Option<Resource>
    decreases resources.len(),
{
    if resources.len() == 0 {
        None
    } else if resources[0].id == id {
        Some(resources[0])
    } else {
        find_resource(resources.drop_first(), id)
    }
}

/// The title of the recipe `recipe_id` among `details`; empty where there
/// is none.
pub open spec fn recipe_name_of(details: Seq<RecipeDetail>, recipe_id: Seq<char>) -> Seq<char> {
    match find_detail(details, recipe_id) {
        Some(d) => d.title@,
        None => Seq::empty(),
    }
}

/// The description of the step `step_id` of the recipe `recipe_id` among
/// `details`; empty where there is none.
pub open spec fn step_description_of(
    details: Seq<RecipeDetail>,
    recipe_id: Seq<char>,
    step_id: Seq<char>,
) -> Seq<char> {
    match find_detail(details, recipe_id) {
        Some(d) => match find_step(d.steps@, step_id) {
            Some(s) => s.description@,
            None => Seq::empty(),
        },
        None => Seq::empty(),
    }
}

/// The name of the resource `id` among `resources`; empty where there is
/// none.
pub open spec fn resource_name_of(resources: Seq<Resource>, id: u64) -> Seq<char> {
    match find_resource(resources, id) {
        Some(r) => r.name@,
        None => Seq::empty(),
    }
}

/// `r` is the placed step `out`: its placement as the service gave it, an
/// order number of 0, and the step's description and its recipe's title
/// looked up among `details`.
pub open spec fn is_step_result(r: StepResult, details: Seq<RecipeDetail>, out: StepOutput) -> bool {
    &&& r.id == out.step_id
    &&& r.recipe_id == out.recipe_id
    &&& r.resource_id == out.resource_id
    &&& r.start_time == out.start_time
    &&& r.duration == out.duration
    &&& r.order_number == 0
    &&& r.timeline_index == out.time_line_index
    &&& r.description@ == step_description_of(details, out.recipe_id@, out.step_id@)
    &&& r.recipe_name@ == recipe_name_of(details, out.recipe_id@)
}

/// The placed steps of `outs` that run on the resource `id`, in order.
pub open spec fn outputs_on_resource(outs: Seq<StepOutput>, id: u64) -> Seq<StepOutput>
    decreases outs.len(),
{
    if outs.len() == 0 {
        Seq::empty()
    } else {
        let rest = outputs_on_resource(outs.drop_last(), id);
        if outs.last().resource_id == id {
            rest.push(outs.last())
        } else {
            rest
        }
    }
}

/// `info` is the resource `out` of the answer: its id, its name looked up
/// among `resources`, and the placed steps of `outs` that run on it, in
/// order.
pub open spec fn is_resource_info(
    info: ResourceInfo,
    details: Seq<RecipeDetail>,
    resources: Seq<Resource>,
    outs: Seq<StepOutput>,
    out: ResourceInfoOutput,
) -> bool {
    let id = out.id as u64;
    let placed = outputs_on_resource(outs, id);
    &&& info.id == id
    &&& info.name@ == resource_name_of(resources, id)
    &&& info.steps@.len() == placed.len()
    &&& forall|j: int| 0 <= j < placed.len() ==> is_step_result(#[trigger] info.steps@[j], details, placed[j])
}

/// `find_detail` finds the first recipe that carries the id.
pub proof fn lemma_find_detail_first(details: Seq<RecipeDetail>, id: Seq<char>, a: int)
    requires
        0 <= a < details.len(),
        details[a].id@ == id,
        forall|c: int| 0 <= c < a ==> (#[trigger] details[c]).id@ != id,
    ensures
        find_detail(details, id) == Some(details[a]),
    decreases a,
{
    if a > 0 {
        assert(details[0].id@ != id);
        assert forall|c: int| 0 <= c < a - 1 implies (#[trigger] details.drop_first()[c]).id@ != id by {
            assert(details.drop_first()[c] == details[c + 1]);
        }
        lemma_find_detail_first(details.drop_first(), id, a - 1);
    }
}

/// `find_detail` finds nothing where no recipe carries the id.
pub proof fn lemma_find_detail_none(details: Seq<RecipeDetail>, id: Seq<char>)
    requires
        forall|c: int| 0 <= c < details.len() ==> (#[trigger] details[c]).id@ != id,
    ensures
        find_detail(details, id) is None,
    decreases details.len(),
{
    if details.len() > 0 {
        assert(details[0].id@ != id);
        assert forall|c: int| 0 <= c < details.len() - 1 implies (#[trigger] details.drop_first()[c]).id@ != id by {
            assert(details.drop_first()[c] == details[c + 1]);
        }
        lemma_find_detail_none(details.drop_first(), id);
    }
}

/// `find_step` finds the first step that carries the id.
pub proof fn lemma_find_step_first(steps: Seq<Step>, id: Seq<char>, b: int)
    requires
        0 <= b < steps.len(),
        steps[b].id@ == id,
        forall|c: int| 0 <= c < b ==> (#[trigger] steps[c]).id@ != id,
    ensures
        find_step(steps, id) == Some(steps[b]),
    decreases b,
{
    if b > 0 {
        assert(steps[0].id@ != id);
        assert forall|c: int| 0 <= c < b - 1 implies (#[trigger] steps.drop_first()[c]).id@ != id by {
            assert(steps.drop_first()[c] == steps[c + 1]);
        }
        lemma_find_step_first(steps.drop_first(), id, b - 1);
    }
}

/// `find_step` finds nothing where no step carries the id.
pub proof fn lemma_find_step_none(steps: Seq<Step>, id: Seq<char>)
    requires
        forall|c: int| 0 <= c < steps.len() ==> (#[trigger] steps[c]).id@ != id,
    ensures
        find_step(steps, id) is None,
    decreases steps.len(),
{
    if steps.len() > 0 {
        assert(steps[0].id@ != id);
        assert forall|c: int| 0 <= c < steps.len() - 1 implies (#[trigger] steps.drop_first()[c]).id@ != id by {
            assert(steps.drop_first()[c] == steps[c + 1]);
        }
        lemma_find_step_none(steps.drop_first(), id);
    }
}

/// `find_resource` finds the first resource that carries the id.
pub proof fn lemma_find_resource_first(resources: Seq<Resource>, id: u64, i: int)
    requires
        0 <= i < resources.len(),
        resources[i].id == id,
        forall|c: int| 0 <= c < i ==> (#[trigger] resources[c]).id != id,
    ensures
        find_resource(resources, id) == Some(resources[i]),
    decreases i,
{
    if i > 0 {
        assert(resources[0].id != id);
        assert forall|c: int| 0 <= c < i - 1 implies (#[trigger] resources.drop_first()[c]).id != id by {
            assert(resources.drop_first()[c] == resources[c + 1]);
        }
        lemma_find_resource_first(resources.drop_first(), id, i - 1);
    }
}

/// `find_resource` finds nothing where no resource carries the id.
pub proof fn lemma_find_resource_none(resources: Seq<Resource>, id: u64)
    requires
        forall|c: int| 0 <= c < resources.len() ==> (#[trigger] resources[c]).id != id,
    ensures
        find_resource(resources, id) is None,
    decreases resources.len(),
{
    if resources.len() > 0 {
        assert(resources[0].id != id);
        assert forall|c: int| 0 <= c < resources.len() - 1 implies (#[trigger] resources.drop_first()[c]).id != id by {
            assert(resources.drop_first()[c] == resources[c + 1]);
        }
        lemma_find_resource_none(resources.drop_first(), id);
    }
}

/// A step sent to the scheduler carries the fields of its own step: for
/// each position, the step's id, resource, duration and order number, and
/// the recipe's id.
pub proof fn lemma_request_recipe_fields(r: RequestRecipe, detail: RecipeDetail)
    requires
        is_request_recipe(r, detail),
    ensures
        r.id == detail.id,
        r.steps@.len() == detail.steps@.len(),
        forall|j: int|
            0 <= j < detail.steps@.len() ==> {
                &&& (#[trigger] r.steps@[j]).id == detail.steps@[j].id
                &&& r.steps@[j].recipe_id == detail.id
                &&& r.steps@[j].resource_id == detail.steps@[j].resource_id
                &&& r.steps@[j].duration == detail.steps@[j].duration
                &&& r.steps@[j].order_number == detail.steps@[j].order_number
            },
{
    assert forall|j: int| 0 <= j < detail.steps@.len() implies {
        &&& (#[trigger] r.steps@[j]).id == detail.steps@[j].id
        &&& r.steps@[j].recipe_id == detail.id
        &&& r.steps@[j].resource_id == detail.steps@[j].resource_id
        &&& r.steps@[j].duration == detail.steps@[j].duration
        &&& r.steps@[j].order_number == detail.steps@[j].order_number
    } by {
        assert(r.steps@[j] == request_step(detail.id, detail.steps@[j]));
    }
}

/// The used resource ids are exactly the resources of the steps: each step
/// of each recipe has its resource in the set, and each id of the set is
/// the resource of some step of some recipe.
pub proof fn lemma_used_resource_ids_exact(details: Seq<RecipeDetail>)
    ensures
        forall|a: int, b: int|
            0 <= a < details.len() && 0 <= b < details[a].steps@.len() ==> used_resource_ids(details).contains(
                (#[trigger] details[a].steps@[b]).resource_id,
            ),
        forall|id: u64|
            #[trigger] used_resource_ids(details).contains(id) ==> exists|a: int, b: int|
                0 <= a < details.len() && 0 <= b < details[a].steps@.len()
                    && (#[trigger] details[a].steps@[b]).resource_id == id,
{
    assert forall|a: int, b: int|
        0 <= a < details.len() && 0 <= b < details[a].steps@.len() implies used_resource_ids(details).contains(
        (#[trigger] details[a].steps@[b]).resource_id,
    ) by {
        assert(details[a].steps@[b].resource_id == details[a].steps@[b].resource_id);
    }
}

/// A placed step takes its description and its recipe's name from its own
/// recipe: where `a` is the first recipe with the placed step's recipe id,
/// the name is that recipe's title, and the description is that of the
/// first step of that recipe (not of any other) with the placed step's id,
/// or empty where the recipe has no such step; where no recipe has that
/// id, both are empty.
pub proof fn lemma_step_result_lookups(r: StepResult, details: Seq<RecipeDetail>, out: StepOutput)
    requires
        is_step_result(r, details, out),
    ensures
        forall|a: int|
            0 <= a < details.len() && (#[trigger] details[a]).id@ == out.recipe_id@ && (forall|c: int|
                0 <= c < a ==> (#[trigger] details[c]).id@ != out.recipe_id@) ==> {
                &&& r.recipe_name@ == details[a].title@
                &&& forall|b: int|
                    0 <= b < details[a].steps@.len() && (#[trigger] details[a].steps@[b]).id@ == out.step_id@
                        && (forall|c: int|
                        0 <= c < b ==> (#[trigger] details[a].steps@[c]).id@ != out.step_id@) ==> r.description@
                        == details[a].steps@[b].description@
                &&& (forall|b: int|
                    0 <= b < details[a].steps@.len() ==> (#[trigger] details[a].steps@[b]).id@ != out.step_id@)
                    ==> r.description@ == Seq::<char>::empty()
            },
        (forall|a: int| 0 <= a < details.len() ==> (#[trigger] details[a]).id@ != out.recipe_id@) ==> {
            &&& r.recipe_name@ == Seq::<char>::empty()
            &&& r.description@ == Seq::<char>::empty()
        },
{
    assert forall|a: int|
        0 <= a < details.len() && (#[trigger] details[a]).id@ == out.recipe_id@ && (forall|c: int|
            0 <= c < a ==> (#[trigger] details[c]).id@ != out.recipe_id@) implies {
        &&& r.recipe_name@ == details[a].title@
        &&& forall|b: int|
            0 <= b < details[a].steps@.len() && (#[trigger] details[a].steps@[b]).id@ == out.step_id@
                && (forall|c: int|
                0 <= c < b ==> (#[trigger] details[a].steps@[c]).id@ != out.step_id@) ==> r.description@
                == details[a].steps@[b].description@
        &&& (forall|b: int|
            0 <= b < details[a].steps@.len() ==> (#[trigger] details[a].steps@[b]).id@ != out.step_id@)
            ==> r.description@ == Seq::<char>::empty()
    } by {
        lemma_find_detail_first(details, out.recipe_id@, a);
        assert forall|b: int|
            0 <= b < details[a].steps@.len() && (#[trigger] details[a].steps@[b]).id@ == out.step_id@
                && (forall|c: int|
                0 <= c < b ==> (#[trigger] details[a].steps@[c]).id@ != out.step_id@) implies r.description@
            == details[a].steps@[b].description@ by {
            lemma_find_step_first(details[a].steps@, out.step_id@, b);
        }
        if forall|b: int|
            0 <= b < details[a].steps@.len() ==> (#[trigger] details[a].steps@[b]).id@ != out.step_id@ {
            lemma_find_step_none(details[a].steps@, out.step_id@);
        }
    }
    if forall|a: int| 0 <= a < details.len() ==> (#[trigger] details[a]).id@ != out.recipe_id@ {
        lemma_find_detail_none(details, out.recipe_id@);
    }
}

/// A resource of the answer takes the name of the first resource of the
/// table with its id, or an empty name where none has it.
pub proof fn lemma_resource_info_name(
    info: ResourceInfo,
    details: Seq<RecipeDetail>,
    resources: Seq<Resource>,
    outs: Seq<StepOutput>,
    out: ResourceInfoOutput,
)
    requires
        is_resource_info(info, details, resources, outs, out),
    ensures
        info.id == out.id as u64,
        forall|i: int|
            0 <= i < resources.len() && (#[trigger] resources[i]).id == out.id as u64 && (forall|c: int|
                0 <= c < i ==> (#[trigger] resources[c]).id != out.id as u64) ==> info.name@ == resources[i].name@,
        (forall|i: int| 0 <= i < resources.len() ==> (#[trigger] resources[i]).id != out.id as u64)
            ==> info.name@ == Seq::<char>::empty(),
{
    let id = out.id as u64;
    assert forall|i: int|
        0 <= i < resources.len() && (#[trigger] resources[i]).id == id && (forall|c: int|
            0 <= c < i ==> (#[trigger] resources[c]).id != id) implies info.name@ == resources[i].name@ by {
        lemma_find_resource_first(resources, id, i);
    }
    if forall|i: int| 0 <= i < resources.len() ==> (#[trigger] resources[i]).id != id {
        lemma_find_resource_none(resources, id);
    }
}

/// The position of the first recipe of `details` with the id `id`.
fn find_detail_index(details: &Vec<RecipeDetail>, id: &String) -> (k: Option<usize>)
    ensures
        match k {
            Some(k) => k < details@.len() && find_detail(details@, id@) == Some(details@[k as int]),
            None => find_detail(details@, id@) is None,
        },
{
    let n = details.len();
    let mut i: usize = 0;
    assert(details@.skip(0) =~= details@);
    while i < n
        invariant
            n == details@.len(),
            i <= n,
            find_detail(details@, id@) == find_detail(details@.skip(i as int), id@),
        decreases n - i,
    {
        assert(details@.skip(i as int)[0] == details@[i as int]);
        if details[i].id == *id {
            return Some(i);
        }
        assert(details@.skip(i as int).drop_first() =~= details@.skip(i + 1));
        i = i + 1;
    }
    None
}

/// The position of the first step of `steps` with the id `id`.
fn find_step_index(steps: &Vec<Step>, id: &String) -> (k: Option<usize>)
    ensures
        match k {
            Some(k) => k < steps@.len() && find_step(steps@, id@) == Some(steps@[k as int]),
            None => find_step(steps@, id@) is None,
        },
{
    let n = steps.len();
    let mut i: usize = 0;
    assert(steps@.skip(0) =~= steps@);
    while i < n
        invariant
            n == steps@.len(),
            i <= n,
            find_step(steps@, id@) == find_step(steps@.skip(i as int), id@),
        decreases n - i,
    {
        assert(steps@.skip(i as int)[0] == steps@[i as int]);
        if steps[i].id == *id {
            return Some(i);
        }
        assert(steps@.skip(i as int).drop_first() =~= steps@.skip(i + 1));
        i = i + 1;
    }
    None
}

/// The position of the first resource of `resources` with the id `id`.
fn find_resource_index(resources: &Vec<Resource>, id: u64) -> (k: Option<usize>)
    ensures
        match k {
            Some(k) => k < resources@.len() && find_resource(resources@, id) == Some(resources@[k as int]),
            None => find_resource(resources@, id) is None,
        },
{
    let n = resources.len();
    let mut i: usize = 0;
    assert(resources@.skip(0) =~= resources@);
    while i < n
        invariant
            n == resources@.len(),
            i <= n,
            find_resource(resources@, id) == find_resource(resources@.skip(i as int), id),
        decreases n - i,
    {
        assert(resources@.skip(i as int)[0] == resources@[i as int]);
        if resources[i].id == id {
            return Some(i);
        }
        assert(resources@.skip(i as int).drop_first() =~= resources@.skip(i + 1));
        i = i + 1;
    }
    None
}

/// The placed step `out`, with the step's description and its recipe's
/// title looked up among `details`.
pub fn step_result_from_output(details: &Vec<RecipeDetail>, out: &StepOutput) -> (r: StepResult)
    ensures
        is_step_result(r, details@, *out),
        r.id == out.step_id,
        r.recipe_id == out.recipe_id,
        r.resource_id == out.resource_id,
        r.start_time == out.start_time,
        r.duration == out.duration,
        r.order_number == 0,
        r.timeline_index == out.time_line_index,
        forall|a: int|
            0 <= a < details@.len() && (#[trigger] details@[a]).id@ == out.recipe_id@ && (forall|c: int|
                0 <= c < a ==> (#[trigger] details@[c]).id@ != out.recipe_id@) ==> {
                &&& r.recipe_name@ == details@[a].title@
                &&& forall|b: int|
                    0 <= b < details@[a].steps@.len() && (#[trigger] details@[a].steps@[b]).id@ == out.step_id@
                        && (forall|c: int|
                        0 <= c < b ==> (#[trigger] details@[a].steps@[c]).id@ != out.step_id@) ==> r.description@
                        == details@[a].steps@[b].description@
                &&& (forall|b: int|
                    0 <= b < details@[a].steps@.len() ==> (#[trigger] details@[a].steps@[b]).id@ != out.step_id@)
                    ==> r.description@ == Seq::<char>::empty()
            },
        (forall|a: int| 0 <= a < details@.len() ==> (#[trigger] details@[a]).id@ != out.recipe_id@) ==> {
            &&& r.recipe_name@ == Seq::<char>::empty()
            &&& r.description@ == Seq::<char>::empty()
        },
{
    let mut recipe_name = String::new();
    let mut description = String::new();
    match find_detail_index(details, &out.recipe_id) {
        Some(k) => {
            let d = &details[k];
            recipe_name = d.title.clone();
            match find_step_index(&d.steps, &out.step_id) {
                Some(s) => {
                    description = d.steps[s].description.clone();
                },
                None => {},
            }
        },
        None => {},
    }
    let r = StepResult {
        id: out.step_id.clone(),
        recipe_id: out.recipe_id.clone(),
        resource_id: out.resource_id,
        start_time: out.start_time,
        duration: out.duration,
        order_number: 0,
        timeline_index: out.time_line_index,
        description,
        recipe_name,
    };
    proof {
        lemma_step_result_lookups(r, details@, *out);
    }
    r
}

/// The resource `out` of the answer, with its name looked up among
/// `resources` and the placed steps of `outs` that run on it, in order.
pub fn resource_info_from_output(
    details: &Vec<RecipeDetail>,
    resources: &Vec<Resource>,
    outs: &Vec<StepOutput>,
    out: &ResourceInfoOutput,
) -> (info: ResourceInfo)
    ensures
        is_resource_info(info, details@, resources@, outs@, *out),
        info.id == out.id as u64,
        forall|i: int|
            0 <= i < resources@.len() && (#[trigger] resources@[i]).id == out.id as u64 && (forall|c: int|
                0 <= c < i ==> (#[trigger] resources@[c]).id != out.id as u64) ==> info.name@ == resources@[i].name@,
        (forall|i: int| 0 <= i < resources@.len() ==> (#[trigger] resources@[i]).id != out.id as u64)
            ==> info.name@ == Seq::<char>::empty(),
{
    let id: u64 = out.id as u64;
    let name = match find_resource_index(resources, id) {
        Some(k) => resources[k].name.clone(),
        None => String::new(),
    };
    let mut steps: Vec<StepResult> = Vec::new();
    let n = outs.len();
    let mut i: usize = 0;
    assert(outs@.take(0) =~= Seq::<StepOutput>::empty());
    while i < n
        invariant
            n == outs@.len(),
            i <= n,
            steps@.len() == outputs_on_resource(outs@.take(i as int), id).len(),
            forall|j: int|
                0 <= j < steps@.len() ==> is_step_result(
                    #[trigger] steps@[j],
                    details@,
                    outputs_on_resource(outs@.take(i as int), id)[j],
                ),
        decreases n - i,
    {
        assert(outs@.take(i + 1).drop_last() =~= outs@.take(i as int));
        if outs[i].resource_id == id {
            let r = step_result_from_output(details, &outs[i]);
            steps.push(r);
        }
        i = i + 1;
    }
    assert(outs@.take(n as int) =~= outs@);
    let info = ResourceInfo { id, name, steps };
    proof {
        lemma_resource_info_name(info, details@, resources@, outs@, *out);
    }
    info
}

/// The scheduled process made of the service's answer: one entry for each
/// resource that the answer reports, in its order, each with the placed
/// steps that run on it. A placed step on a resource that the answer does
/// not report appears nowhere; a resource reported twice appears twice,
/// with the same steps each time.
pub fn process_from_response(
    details: &Vec<RecipeDetail>,
    resources: &Vec<Resource>,
    response: &ProcessResponse,
) -> (p: Process)
    ensures
        p.resource_infos@.len() == response.resource_infos@.len(),
        forall|k: int|
            0 <= k < response.resource_infos@.len() ==> is_resource_info(
                #[trigger] p.resource_infos@[k],
                details@,
                resources@,
                response.steps@,
                response.resource_infos@[k],
            ),
        forall|k: int, i: int|
            0 <= k < response.resource_infos@.len() && 0 <= i < resources@.len() && (#[trigger] resources@[i]).id
                == response.resource_infos@[k].id as u64 && (forall|c: int|
                0 <= c < i ==> (#[trigger] resources@[c]).id != response.resource_infos@[k].id as u64)
                ==> (#[trigger] p.resource_infos@[k]).name@ == resources@[i].name@,
{
    let mut infos: Vec<ResourceInfo> = Vec::new();
    let n = response.resource_infos.len();
    let mut k: usize = 0;
    while k < n
        invariant
            n == response.resource_infos@.len(),
            k <= n,
            infos@.len() == k,
            forall|q: int|
                0 <= q < k ==> is_resource_info(
                    #[trigger] infos@[q],
                    details@,
                    resources@,
                    response.steps@,
                    response.resource_infos@[q],
                ),
        decreases n - k,
    {
        infos.push(
            resource_info_from_output(details, resources, &response.steps, &response.resource_infos[k]),
        );
        k = k + 1;
    }
    let p = Process { resource_infos: infos };
    proof {
        assert forall|k: int, i: int|
            0 <= k < response.resource_infos@.len() && 0 <= i < resources@.len() && (#[trigger] resources@[i]).id
                == response.resource_infos@[k].id as u64 && (forall|c: int|
                0 <= c < i ==> (#[trigger] resources@[c]).id != response.resource_infos@[k].id as u64)
                implies (#[trigger] p.resource_infos@[k]).name@ == resources@[i].name@ by {
            lemma_resource_info_name(
                p.resource_infos@[k],
                details@,
                resources@,
                response.steps@,
                response.resource_infos@[k],
            );
        }
    }
    p
}

} // verus!
