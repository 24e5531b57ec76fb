use vstd::prelude::*;

use std::rc::Rc;

use crate::ast::{share, TriggerDeclaration, TriggerEvent, TriggerTiming};
use crate::expr::eval::EvalError;
use crate::expr::value::str_equal;

verus! {

/// The trigger fires for row changes of `table` at `timing` on `event`.
pub open spec fn trigger_matches(
    t: TriggerDeclaration,
    table: Seq<char>,
    timing: TriggerTiming,
    event: TriggerEvent,
) -> bool {
    t.table@ == table && t.timing == timing && t.event == event
}

/// The triggers of `decls` that match, in declaration order.
pub open spec fn matching_list(
    decls: Seq<Rc<TriggerDeclaration>>,
    table: Seq<char>,
    timing: TriggerTiming,
    event: TriggerEvent,
) -> Seq<Rc<TriggerDeclaration>>
    decreases decls.len(),
{
    if decls.len() == 0 {
        Seq::empty()
    } else {
        let rest = matching_list(decls.drop_last(), table, timing, event);
        if trigger_matches(*decls.last(), table, timing, event) {
            rest.push(decls.last())
        } else {
            rest
        }
    }
}

/// The matching triggers of all scopes, outermost scope first.
pub open spec fn matching_in(
    scopes: Seq<Vec<Rc<TriggerDeclaration>>>,
    table: Seq<char>,
    timing: TriggerTiming,
    event: TriggerEvent,
) -> Seq<Rc<TriggerDeclaration>>
    decreases scopes.len(),
{
    if scopes.len() == 0 {
        Seq::empty()
    } else {
        matching_in(scopes.drop_last(), table, timing, event) + matching_list(
            scopes.last()@,
            table,
            timing,
            event,
        )
    }
}

/// Some scope declares a trigger called `name`.
pub open spec fn trigger_declared(scopes: Seq<Vec<Rc<TriggerDeclaration>>>, name: Seq<char>) -> bool {
    exists|i: int, j: int|
        0 <= i < scopes.len() && 0 <= j < scopes[i]@.len() && (#[trigger] scopes[i]@[j]).name@ == name
}

/// Row-trigger declarations of nested scopes.
#[derive(Debug)]
pub struct Triggers {
    pub scopes: Vec<Vec<Rc<TriggerDeclaration>>>,
}

impl Triggers {
    /// There is an outermost scope.
    pub open spec fn wf(&self) -> bool {
        self.scopes@.len() > 0
    }

    /// One scope with no triggers.
    pub fn new() -> (r: Triggers)
        ensures
            r.wf(),
            r.scopes@.len() == 1,
            r.scopes@[0]@.len() == 0,
    {
        let mut scopes: Vec<Vec<Rc<TriggerDeclaration>>> = Vec::new();
        scopes.push(Vec::new());
        Triggers { scopes }
    }

    /// One scope with no triggers (see `new`).
    pub fn default() -> (r: Triggers)
        ensures
            r.wf(),
            r.scopes@.len() == 1,
            r.scopes@[0]@.len() == 0,
    {
        Triggers::new()
    }

    /// Opens a nested scope with no triggers.
    pub fn push_scope(&mut self)
        requires
            old(self).wf(),
        ensures
            final(self).wf(),
            final(self).scopes@ == old(self).scopes@.push(final(self).scopes@.last()),
            final(self).scopes@.last()@.len() == 0,
    {
        self.scopes.push(Vec::new());
    }

    /// Closes the innermost scope; the outermost scope is never closed.
    pub fn pop_scope(&mut self)
        requires
            old(self).wf(),
        ensures
            final(self).wf(),
            old(self).scopes@.len() > 1 ==> final(self).scopes@ == old(self).scopes@.drop_last(),
            old(self).scopes@.len() == 1 ==> final(self).scopes@ == old(self).scopes@,
    {
        if self.scopes.len() > 1 {
            self.scopes.pop();
        }
    }

    /// Declares a trigger in the innermost scope; refused when any enclosing
    /// scope already has a trigger of that name.
    pub fn declare(&mut self, trigger: Rc<TriggerDeclaration>) -> (r: Result<(), EvalError>)
        requires
            old(self).wf(),
        ensures
            final(self).wf(),
            trigger_declared(old(self).scopes@, trigger.name@) ==> (r matches Err(
                EvalError::TriggerAlreadyDeclared(n),
            ) && n@ == trigger.name@ && *final(self) == *old(self)),
            !trigger_declared(old(self).scopes@, trigger.name@) ==> {
                &&& r is Ok
                &&& final(self).scopes@.len() == old(self).scopes@.len()
                &&& final(self).scopes@.drop_last() == old(self).scopes@.drop_last()
                &&& final(self).scopes@.last()@ == old(self).scopes@.last()@.push(trigger)
            },
    {
        if self.has_name(trigger.name.as_str()) {
            return Err(EvalError::TriggerAlreadyDeclared(trigger.name.clone()));
        }
        let last = self.scopes.len() - 1;
        let mut scope = self.scopes.remove(last);
        scope.push(trigger);
        self.scopes.push(scope);
        proof {
            assert(self.scopes@.drop_last() =~= old(self).scopes@.drop_last());
        }
        Ok(())
    }

    /// Some scope has a trigger called `name`.
    fn has_name(&self, name: &str) -> (r: bool)
        ensures
            r == trigger_declared(self.scopes@, name@),
    {
        let mut i: usize = 0;
        while i < self.scopes.len()
            invariant
                i <= self.scopes@.len(),
                forall|a: int, b: int|
                    0 <= a < i && 0 <= b < self.scopes@[a]@.len() ==> (#[trigger] self.scopes@[a]@[b]).name@
                        != name@,
            decreases self.scopes@.len() - i,
        {
            let scope = &self.scopes[i];
            let mut j: usize = 0;
            while j < scope.len()
                invariant
                    i < self.scopes@.len(),
                    *scope == self.scopes@[i as int],
                    j <= scope@.len(),
                    forall|b: int| 0 <= b < j ==> (#[trigger] scope@[b]).name@ != name@,
                decreases scope@.len() - j,
            {
                if str_equal(scope[j].name.as_str(), name) {
                    proof {
                        assert(self.scopes@[i as int]@[j as int].name@ == name@);
                    }
                    return true;
                }
                j += 1;
            }
            i += 1;
        }
        false
    }

    /// The triggers for row changes of `table` at `timing` on `event`: those
    /// of the outermost scope first, each scope's in declaration order.
    pub fn matching(&self, table: &str, timing: TriggerTiming, event: TriggerEvent) -> (r: Vec<
        Rc<TriggerDeclaration>,
    >)
        ensures
            r@ == matching_in(self.scopes@, table@, timing, event),
            forall|k: int|
                0 <= k < r@.len() ==> (#[trigger] r@[k]).table@ == table@ && r@[k].timing == timing && r@[k].event
                    == event,
    {
        proof {
            crate::laws::law_triggers_fire_for_their_table(self.scopes@, table@, timing, event);
        }
        let mut out: Vec<Rc<TriggerDeclaration>> = Vec::new();
        let mut i: usize = 0;
        while i < self.scopes.len()
            invariant
                i <= self.scopes@.len(),
                out@ == matching_in(self.scopes@.take(i as int), table@, timing, event),
            decreases self.scopes@.len() - i,
        {
            let scope = &self.scopes[i];
            let ghost base = out@;
            let mut j: usize = 0;
            while j < scope.len()
                invariant
                    i < self.scopes@.len(),
                    *scope == self.scopes@[i as int],
                    j <= scope@.len(),
                    out@ == base + matching_list(scope@.take(j as int), table@, timing, event),
                decreases scope@.len() - j,
            {
                let t = &scope[j];
                proof {
                    assert(scope@.take(j + 1).drop_last() =~= scope@.take(j as int));
                    assert(scope@.take(j + 1).last() == scope@[j as int]);
                }
                if str_equal(t.table.as_str(), table) && t.timing == timing && t.event == event {
                    out.push(share(t));
                    proof {
                        assert(out@ =~= base + matching_list(scope@.take(j + 1), table@, timing, event));
                    }
                }
                j += 1;
            }
            proof {
                assert(scope@.take(scope@.len() as int) =~= scope@);
                assert(self.scopes@.take(i + 1).drop_last() =~= self.scopes@.take(i as int));
                assert(self.scopes@.take(i + 1).last() == self.scopes@[i as int]);
            }
            i += 1;
        }
        assert(self.scopes@.take(self.scopes@.len() as int) =~= self.scopes@);
        out
    }
}

} // verus!
