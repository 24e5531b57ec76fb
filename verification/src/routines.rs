use vstd::prelude::*;

use std::rc::Rc;

use crate::ast::{share, RoutineDeclaration, RoutineParameter};
use crate::db::catalog::{catalog_set, names_unique};
use crate::expr::eval::EvalError;
use crate::expr::value::{type_from_name_spec, DataType};
use crate::runtime::env::{concat5, concat6};
use crate::runtime::names::{find_key, get_key, keyed, lemma_put_key, lookup, put_key};

verus! {

/// The position of the first parameter whose type is unknown, or `-1`.
pub open spec fn first_unknown_parameter(params: Seq<RoutineParameter>) -> int
    decreases params.len(),
{
    if params.len() == 0 {
        -1
    } else if type_from_name_spec(params[0].declared_type@) is None {
        0
    } else {
        let p = first_unknown_parameter(params.drop_first());
        if p < 0 {
            -1
        } else {
            p + 1
        }
    }
}

/// Facts about `first_unknown_parameter`.
pub proof fn lemma_first_unknown_parameter(params: Seq<RoutineParameter>)
    ensures
        -1 <= first_unknown_parameter(params) < params.len(),
        first_unknown_parameter(params) >= 0 ==> type_from_name_spec(
            params[first_unknown_parameter(params)].declared_type@,
        ) is None,
        forall|i: int|
            0 <= i < params.len() && (first_unknown_parameter(params) < 0 || i
                < first_unknown_parameter(params)) ==> type_from_name_spec(
                (#[trigger] params[i]).declared_type@,
            ) is Some,
    decreases params.len(),
{
    if params.len() > 0 && type_from_name_spec(params[0].declared_type@) is Some {
        lemma_first_unknown_parameter(params.drop_first());
        assert forall|i: int|
            0 <= i < params.len() && (first_unknown_parameter(params) < 0 || i
                < first_unknown_parameter(params)) implies type_from_name_spec(
            (#[trigger] params[i]).declared_type@,
        ) is Some by {
            if i > 0 {
                assert(params[i] == params.drop_first()[i - 1]);
            }
        }
    }
}

/// `unknown return type `T` for routine `R``.
pub open spec fn unknown_return_message(t: Seq<char>, routine: Seq<char>) -> Seq<char> {
    "unknown return type `"@ + t + "` for routine `"@ + routine + "`"@
}

/// `unknown type `T` for parameter `P` in routine `R``.
pub open spec fn unknown_parameter_message(t: Seq<char>, p: Seq<char>, routine: Seq<char>) -> Seq<
    char,
> {
    "unknown type `"@ + t + "` for parameter `"@ + p + "` in routine `"@ + routine + "`"@
}

/// The declared procedures and functions, shared by all scopes.
#[derive(Debug)]
pub struct Routines {
    pub declarations: Vec<(String, Rc<RoutineDeclaration>)>,
}

impl Routines {
    /// No routine is declared twice.
    pub open spec fn wf(&self) -> bool {
        names_unique(keyed(self.declarations@))
    }

    /// The routine called `name`.
    pub open spec fn declared(&self, name: Seq<char>) -> Option<Rc<RoutineDeclaration>> {
        lookup(self.declarations, name)
    }

    /// No routines.
    pub fn new() -> (r: Routines)
        ensures
            r.wf(),
            r.declarations@.len() == 0,
    {
        let r = Routines { declarations: Vec::new() };
        assert(keyed(r.declarations@) =~= Seq::empty());
        r
    }

    /// Declares a routine. Refused when one of that name exists, when its
    /// return type is unknown, or when a parameter's type is unknown (the
    /// first such parameter is named).
    pub fn declare(&mut self, routine: Rc<RoutineDeclaration>) -> (r: Result<(), EvalError>)
        requires
            old(self).wf(),
        ensures
            final(self).wf(),
            old(self).declared(routine.name@) is Some ==> (r matches Err(
                EvalError::RoutineAlreadyDeclared(n),
            ) && n@ == routine.name@ && *final(self) == *old(self)),
            old(self).declared(routine.name@) is None && (routine.return_type matches Some(t)
                && type_from_name_spec(t@) is None) ==> (r matches Err(EvalError::TypeError(m)) && m@
                == unknown_return_message(routine.return_type->0@, routine.name@) && *final(self)
                == *old(self)),
            old(self).declared(routine.name@) is None && !(routine.return_type matches Some(t)
                && type_from_name_spec(t@) is None) && first_unknown_parameter(routine.parameters@)
                >= 0 ==> (r matches Err(EvalError::TypeError(m)) && m@ == unknown_parameter_message(
                routine.parameters@[first_unknown_parameter(routine.parameters@)].declared_type@,
                routine.parameters@[first_unknown_parameter(routine.parameters@)].name@,
                routine.name@,
            ) && *final(self) == *old(self)),
            old(self).declared(routine.name@) is None && !(routine.return_type matches Some(t)
                && type_from_name_spec(t@) is None) && first_unknown_parameter(routine.parameters@)
                < 0 ==> (r is Ok && keyed(final(self).declarations@) == catalog_set(
                keyed(old(self).declarations@),
                routine.name@,
                routine,
            )),
        forall|n: Seq<char>|
            #[trigger] old(self).declared(n) is Some ==> final(self).declared(n) == old(self).declared(n),
    {
        if find_key(&self.declarations, routine.name.as_str()).is_some() {
            proof {
                crate::db::catalog::lemma_name_index(keyed(self.declarations@), routine.name@);
            }
            return Err(EvalError::RoutineAlreadyDeclared(routine.name.clone()));
        }
        proof {
            crate::db::catalog::lemma_name_index(keyed(self.declarations@), routine.name@);
        }
        match &routine.return_type {
            Some(t) => {
                if DataType::from_name(t.as_str()).is_none() {
                    return Err(
                        EvalError::TypeError(
                            concat5(
                                "unknown return type `",
                                t.as_str(),
                                "` for routine `",
                                routine.name.as_str(),
                                "`",
                            ),
                        ),
                    );
                }
            },
            None => {},
        }
        proof {
            lemma_first_unknown_parameter(routine.parameters@);
        }
        let mut i: usize = 0;
        while i < routine.parameters.len()
            invariant
                i <= routine.parameters@.len(),
                *self == *old(self),
                old(self).wf(),
                old(self).declared(routine.name@) is None,
                !(routine.return_type matches Some(t) && type_from_name_spec(t@) is None),
                forall|k: int|
                    0 <= k < i ==> type_from_name_spec(
                        (#[trigger] routine.parameters@[k]).declared_type@,
                    ) is Some,
            decreases routine.parameters@.len() - i,
        {
            let p = &routine.parameters[i];
            if DataType::from_name(p.declared_type.as_str()).is_none() {
                proof {
                    lemma_first_unknown_parameter(routine.parameters@);
                    let f = first_unknown_parameter(routine.parameters@);
                    assert(f >= 0);
                    if f < i {
                        assert(type_from_name_spec(routine.parameters@[f].declared_type@) is Some);
                    }
                    if f > i {
                        assert(type_from_name_spec(routine.parameters@[i as int].declared_type@) is Some);
                    }
                }
                let mut m = concat6(
                    "unknown type `",
                    p.declared_type.as_str(),
                    "` for parameter `",
                    p.name.as_str(),
                    "` in routine `",
                    routine.name.as_str(),
                );
                m.append("`");
                return Err(EvalError::TypeError(m));
            }
            i += 1;
        }
        proof {
            let f = first_unknown_parameter(routine.parameters@);
            if f >= 0 {
                assert(type_from_name_spec(routine.parameters@[f].declared_type@) is Some);
            }
        }
        let ghost before = self.declarations@;
        let ghost declared = routine;
        let name = routine.name.clone();
        put_key(&mut self.declarations, name, routine);
        proof {
            lemma_put_key(before, self.declarations@, declared.name@, declared);
            assert forall|n: Seq<char>| #[trigger] old(self).declared(n) is Some implies self.declared(n)
                == old(self).declared(n) by {
                crate::db::catalog::lemma_catalog_set(keyed(before), declared.name@, declared, n);
            }
        }
        Ok(())
    }

    /// The routine called `name` (another handle to the declaration).
    pub fn get(&self, name: &str) -> (r: Option<Rc<RoutineDeclaration>>)
        ensures
            r == self.declared(name@),
    {
        match get_key(&self.declarations, name) {
            Some(d) => Some(share(d)),
            None => None,
        }
    }
}

} // verus!
