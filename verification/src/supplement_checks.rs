//! Running the checks of a supplement plan: each step's IRIs and bodies validated in order, then
//! its harvested assertions counted on one counter shared by the whole load.
use vstd::prelude::*;

use crate::budget::harvest_message;
use crate::error::Error;
use crate::limits::ParseLimits;
use crate::scan::str_views;
use crate::supplements::{
    body_iris, functional_metacharacter_error, metacharacter_error, step_views,
    supplement_body_iris, StepView, SupplementStep,
};
use crate::text::{chars_of, push_decimal, push_str, string_of};

verus! {

/// The first rejection among `iris`, in order.
pub open spec fn first_iri_error(iris: Seq<Seq<char>>) -> Option<Seq<char>>
    decreases iris.len(),
{
    if iris.len() == 0 {
        None
    } else {
        match metacharacter_error(iris[0]) {
            Some(m) => Some(m),
            None => first_iri_error(iris.drop_first()),
        }
    }
}

/// `unterminated IRI in supplement OFN body`.
pub open spec fn unterminated_message() -> Seq<char> {
    "unterminated IRI in supplement OFN body"@
}

/// The rejection of a functional-syntax body: the first of its `<...>` IRIs that is rejected,
/// else an unclosed `<`.
pub open spec fn body_error(body: Seq<char>) -> Option<Seq<char>> {
    match first_iri_error(body_iris(body).0) {
        Some(m) => Some(m),
        None => if body_iris(body).1 {
            None
        } else {
            Some(unterminated_message())
        },
    }
}

/// The first rejection among `bodies`, in order.
pub open spec fn first_body_error(bodies: Seq<Seq<char>>) -> Option<Seq<char>>
    decreases bodies.len(),
{
    if bodies.len() == 0 {
        None
    } else {
        match body_error(bodies[0]) {
            Some(m) => Some(m),
            None => first_body_error(bodies.drop_first()),
        }
    }
}

/// The rejection of a step's IRIs and bodies, IRIs first.
pub open spec fn validation_error(step: StepView) -> Option<Seq<char>> {
    match first_iri_error(step.iris) {
        Some(m) => Some(m),
        None => first_body_error(step.bodies),
    }
}

/// The checks of a plan with `count` assertions harvested before it: the first step whose IRIs
/// or bodies are rejected, or whose assertions take the count past `max`, fails the plan (the
/// count stops one past the limit); else the count after the last step.
pub open spec fn plan_check(steps: Seq<StepView>, count: nat, max: nat) -> Result<nat, Seq<char>>
    decreases steps.len(),
{
    if steps.len() == 0 {
        Ok(count)
    } else {
        match validation_error(steps[0]) {
            Some(m) => Err(m),
            None => if count + steps[0].harvested as nat > max {
                Err(harvest_message(max + 1, max))
            } else {
                plan_check(steps.drop_first(), count + steps[0].harvested as nat, max)
            },
        }
    }
}

/// The assertions that all the steps harvest together.
pub open spec fn harvest_total(steps: Seq<StepView>) -> nat
    decreases steps.len(),
{
    if steps.len() == 0 {
        0
    } else {
        steps[0].harvested as nat + harvest_total(steps.drop_first())
    }
}

/// One harvested-assertion counter runs across the whole plan: where no IRI or body is rejected,
/// the checks pass exactly when the count before the plan and all that its steps harvest stay
/// within the limit, and otherwise fail with the count one past the limit.
pub proof fn lemma_plan_harvest_limit(steps: Seq<StepView>, count: nat, max: nat)
    requires
        count <= max,
        forall|i: int| 0 <= i < steps.len() ==> validation_error(#[trigger] steps[i]) is None,
    ensures
        plan_check(steps, count, max) is Ok <==> count + harvest_total(steps) <= max,
        plan_check(steps, count, max) matches Ok(n) ==> n == count + harvest_total(steps),
        plan_check(steps, count, max) matches Err(m) ==> m == harvest_message(max + 1, max),
    decreases steps.len(),
{
    if steps.len() > 0 {
        assert(validation_error(steps[0]) is None);
        let rest = steps.drop_first();
        assert forall|i: int| 0 <= i < rest.len() implies validation_error(#[trigger] rest[i]) is None by {
            assert(rest[i] == steps[i + 1]);
        }
        if count + steps[0].harvested as nat <= max {
            lemma_plan_harvest_limit(rest, count + steps[0].harvested as nat, max);
        }
    }
}

/// A rejected IRI or body, or a harvest past the limit, anywhere in the plan fails it: the
/// checks pass only where every step validates and the total stays within the limit.
pub proof fn lemma_plan_passes_only_if_clean(steps: Seq<StepView>, count: nat, max: nat)
    requires
        count <= max,
        plan_check(steps, count, max) is Ok,
    ensures
        forall|i: int| 0 <= i < steps.len() ==> validation_error(#[trigger] steps[i]) is None,
        count + harvest_total(steps) <= max,
    decreases steps.len(),
{
    if steps.len() > 0 {
        let rest = steps.drop_first();
        lemma_plan_passes_only_if_clean(rest, count + steps[0].harvested as nat, max);
        assert forall|i: int| 0 <= i < steps.len() implies validation_error(#[trigger] steps[i]) is None by {
            if i > 0 {
                assert(steps[i] == rest[i - 1]);
            }
        }
    }
}

fn first_iri_error_exec(iris: &Vec<String>) -> (r: Option<String>)
    ensures
        match r {
            Some(m) => first_iri_error(str_views(iris@)) == Some(m@),
            None => first_iri_error(str_views(iris@)) is None,
        },
{
    let mut i: usize = 0;
    assert(str_views(iris@).skip(0) =~= str_views(iris@));
    while i < iris.len()
        invariant
            i <= iris.len(),
            first_iri_error(str_views(iris@)) == first_iri_error(str_views(iris@).skip(i as int)),
        decreases iris.len() - i,
    {
        let ghost rest = str_views(iris@).skip(i as int);
        assert(rest[0] == iris@[i as int]@);
        assert(rest.drop_first() =~= str_views(iris@).skip(i + 1));
        match functional_metacharacter_error(iris[i].as_str()) {
            Some(m) => {
                return Some(m);
            },
            None => {},
        }
        i += 1;
    }
    assert(str_views(iris@).skip(i as int).len() == 0);
    None
}

fn body_error_exec(body: &String) -> (r: Option<String>)
    ensures
        match r {
            Some(m) => body_error(body@) == Some(m@),
            None => body_error(body@) is None,
        },
{
    let (iris, closed) = supplement_body_iris(body.as_str());
    match first_iri_error_exec(&iris) {
        Some(m) => Some(m),
        None => if closed {
            None
        } else {
            let m = chars_of("unterminated IRI in supplement OFN body");
            Some(string_of(&m))
        },
    }
}

fn first_body_error_exec(bodies: &Vec<String>) -> (r: Option<String>)
    ensures
        match r {
            Some(m) => first_body_error(str_views(bodies@)) == Some(m@),
            None => first_body_error(str_views(bodies@)) is None,
        },
{
    let mut i: usize = 0;
    assert(str_views(bodies@).skip(0) =~= str_views(bodies@));
    while i < bodies.len()
        invariant
            i <= bodies.len(),
            first_body_error(str_views(bodies@)) == first_body_error(str_views(bodies@).skip(i as int)),
        decreases bodies.len() - i,
    {
        let ghost rest = str_views(bodies@).skip(i as int);
        assert(rest[0] == bodies@[i as int]@);
        assert(rest.drop_first() =~= str_views(bodies@).skip(i + 1));
        match body_error_exec(&bodies[i]) {
            Some(m) => {
                return Some(m);
            },
            None => {},
        }
        i += 1;
    }
    assert(str_views(bodies@).skip(i as int).len() == 0);
    None
}

/// Run the checks of a supplement plan, step by step: each step's IRIs and then its bodies are
/// validated in order (an IRI holding a functional-syntax metacharacter, or a body with an
/// unclosed `<`, is rejected), then its harvested assertions are counted on one counter for the
/// whole plan, which fails once it passes `max_harvested_assertions`.  The first failure is
/// returned.  The syntax check of the IRIs themselves belongs to the ontology model and is run
/// by the caller beside this one.
pub fn check_supplement_plan(plan: &Vec<SupplementStep>, limits: ParseLimits) -> (r: Result<(), Error>)
    requires
        limits.max_harvested_assertions < usize::MAX || harvest_total(step_views(plan@)) <= usize::MAX,
    ensures
        match plan_check(step_views(plan@), 0, limits.max_harvested_assertions as nat) {
            Ok(_) => r is Ok,
            Err(m) => r matches Err(Error::Parse(e)) && e@ == m,
        },
{
    let ghost steps = step_views(plan@);
    let ghost max = limits.max_harvested_assertions as nat;
    let max_h = limits.max_harvested_assertions;
    let mut count: usize = 0;
    let mut i: usize = 0;
    assert(steps.skip(0) =~= steps);
    while i < plan.len()
        invariant
            i <= plan.len(),
            steps == step_views(plan@),
            max == max_h as nat,
            max_h == limits.max_harvested_assertions,
            max_h < usize::MAX || harvest_total(steps) <= usize::MAX,
            count <= max_h,
            plan_check(steps, 0, max) == plan_check(steps.skip(i as int), count as nat, max),
            harvest_total(steps) == count + harvest_total(steps.skip(i as int)),
        decreases plan.len() - i,
    {
        let ghost rest = steps.skip(i as int);
        assert(rest[0] == plan@[i as int]@);
        assert(rest.drop_first() =~= steps.skip(i + 1));
        let step = &plan[i];
        assert(rest[0].iris == str_views(step.iris@));
        assert(rest[0].bodies == str_views(step.bodies@));
        assert(rest[0].harvested == step.harvested);
        match first_iri_error_exec(&step.iris) {
            Some(m) => {
                assert(validation_error(rest[0]) == Some(m@));
                assert(plan_check(rest, count as nat, max) == Err::<nat, Seq<char>>(m@));
                return Err(Error::Parse(m));
            },
            None => {},
        }
        match first_body_error_exec(&step.bodies) {
            Some(m) => {
                assert(validation_error(rest[0]) == Some(m@));
                assert(plan_check(rest, count as nat, max) == Err::<nat, Seq<char>>(m@));
                return Err(Error::Parse(m));
            },
            None => {},
        }
        if step.harvested > max_h - count {
            assert(max_h < usize::MAX);
            let mut m = chars_of("harvested assertion count ");
            push_decimal(&mut m, max_h + 1);
            push_str(&mut m, " exceeds limit of ");
            push_decimal(&mut m, max_h);
            proof {
                reveal_strlit("harvested assertion count ");
                reveal_strlit(" exceeds limit of ");
                assert(m@ =~= harvest_message(max + 1, max));
            }
            return Err(Error::Parse(string_of(&m)));
        }
        count = count + step.harvested;
        i += 1;
    }
    Ok(())
}

} // verus!
