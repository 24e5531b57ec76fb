use vstd::prelude::*;

use std::rc::Rc;

use crate::ast::{share, CursorQuery};
use crate::db::catalog::{catalog_get, catalog_remove, catalog_set, lemma_catalog_remove, names_unique};
use crate::expr::eval::EvalError;
use crate::expr::value::Value;
use crate::runtime::names::{find_key, get_key, keyed, lemma_put_key, lookup, put_key, take_key};

verus! {

/// An open cursor: the rows its query gave when it was opened, and how many
/// of them have been fetched.
#[derive(Debug)]
pub struct CursorInstance {
    pub rows: Vec<Vec<Value>>,
    pub position: usize,
}

/// The cursors declared in one scope, and those of them that are open.
#[derive(Debug)]
pub struct CursorScope {
    pub declarations: Vec<(String, Rc<CursorQuery>)>,
    pub instances: Vec<(String, CursorInstance)>,
}

impl CursorScope {
    /// No cursor is declared or open twice in the scope.
    pub open spec fn wf(self) -> bool {
        &&& names_unique(keyed(self.declarations@))
        &&& names_unique(keyed(self.instances@))
    }
}

/// The innermost scope declaring the cursor `name`, or `-1`.
pub open spec fn cursor_owner(scopes: Seq<CursorScope>, name: Seq<char>) -> int
    decreases scopes.len(),
{
    if scopes.len() == 0 {
        -1
    } else if lookup(scopes.last().declarations, name) is Some {
        scopes.len() - 1
    } else {
        cursor_owner(scopes.drop_last(), name)
    }
}

/// The bounds of `cursor_owner`.
pub proof fn lemma_cursor_owner(scopes: Seq<CursorScope>, name: Seq<char>)
    ensures
        -1 <= cursor_owner(scopes, name) < scopes.len(),
        cursor_owner(scopes, name) >= 0 ==> lookup(
            scopes[cursor_owner(scopes, name)].declarations,
            name,
        ) is Some,
    decreases scopes.len(),
{
    if scopes.len() > 0 && lookup(scopes.last().declarations, name) is None {
        lemma_cursor_owner(scopes.drop_last(), name);
    }
}

/// `cursor_owner` depends only on the declarations.
pub proof fn lemma_cursor_owner_same(a: Seq<CursorScope>, b: Seq<CursorScope>, name: Seq<char>)
    requires
        a.len() == b.len(),
        forall|i: int| 0 <= i < a.len() ==> (#[trigger] a[i]).declarations == b[i].declarations,
    ensures
        cursor_owner(a, name) == cursor_owner(b, name),
    decreases a.len(),
{
    if a.len() > 0 {
        assert(a.last().declarations == b.last().declarations);
        lemma_cursor_owner_same(a.drop_last(), b.drop_last(), name);
    }
}

/// Cursor declarations and open cursors of nested scopes.
#[derive(Debug)]
pub struct Cursors {
    pub scopes: Vec<CursorScope>,
}

impl Cursors {
    /// There is an outermost scope and every scope is well formed.
    pub open spec fn wf(&self) -> bool {
        &&& self.scopes@.len() > 0
        &&& forall|i: int| 0 <= i < self.scopes@.len() ==> (#[trigger] self.scopes@[i]).wf()
    }

    /// The scope that owns the cursor `name`, or `-1`.
    pub open spec fn owner(&self, name: Seq<char>) -> int {
        cursor_owner(self.scopes@, name)
    }

    /// The query of the cursor `name`, from the innermost scope outward.
    pub open spec fn declared_query(&self, name: Seq<char>) -> Option<Rc<CursorQuery>> {
        let o = self.owner(name);
        if o < 0 {
            None
        } else {
            lookup(self.scopes@[o].declarations, name)
        }
    }

    /// The open instance of the cursor `name`, kept in its owning scope.
    pub open spec fn instance(&self, name: Seq<char>) -> Option<CursorInstance> {
        let o = self.owner(name);
        if o < 0 {
            None
        } else {
            lookup(self.scopes@[o].instances, name)
        }
    }

    /// Every scope keeps its declarations, and only the instance of `name`
    /// in its owning scope may differ.
    pub open spec fn same_but_instance(&self, other: &Cursors, name: Seq<char>) -> bool {
        &&& self.scopes@.len() == other.scopes@.len()
        &&& forall|i: int|
            0 <= i < self.scopes@.len() ==> (#[trigger] self.scopes@[i]).declarations
                == other.scopes@[i].declarations
        &&& forall|i: int|
            0 <= i < self.scopes@.len() && i != self.owner(name) ==> (#[trigger] self.scopes@[i]).instances
                == other.scopes@[i].instances
        &&& forall|k: Seq<char>|
            k != name && self.owner(name) >= 0 ==> #[trigger] lookup(
                self.scopes@[self.owner(name)].instances,
                k,
            ) == lookup(other.scopes@[self.owner(name)].instances, k)
    }

    /// One scope with no cursors.
    pub fn new() -> (r: Cursors)
        ensures
            r.wf(),
            r.scopes@.len() == 1,
            r.scopes@[0].declarations@.len() == 0,
            r.scopes@[0].instances@.len() == 0,
    {
        let mut scopes: Vec<CursorScope> = Vec::new();
        scopes.push(CursorScope { declarations: Vec::new(), instances: Vec::new() });
        proof {
            assert(keyed(scopes@[0].declarations@) =~= Seq::empty());
            assert(keyed(scopes@[0].instances@) =~= Seq::empty());
        }
        Cursors { scopes }
    }

    /// One scope with no cursors (see `new`).
    pub fn default() -> (r: Cursors)
        ensures
            r.wf(),
            r.scopes@.len() == 1,
            r.scopes@[0].declarations@.len() == 0,
            r.scopes@[0].instances@.len() == 0,
    {
        Cursors::new()
    }

    /// Opens a nested scope with no cursors.
    pub fn push_scope(&mut self)
        requires
            old(self).wf(),
        ensures
            final(self).wf(),
            final(self).scopes@.len() == old(self).scopes@.len() + 1,
            final(self).scopes@.drop_last() == old(self).scopes@,
            final(self).scopes@.last().declarations@.len() == 0,
            final(self).scopes@.last().instances@.len() == 0,
    {
        let s = CursorScope { declarations: Vec::new(), instances: Vec::new() };
        proof {
            assert(keyed(s.declarations@) =~= Seq::empty());
            assert(keyed(s.instances@) =~= Seq::empty());
        }
        self.scopes.push(s);
        assert(self.scopes@.drop_last() =~= old(self).scopes@);
    }

    /// Closes the innermost scope, with its cursors; the outermost scope is
    /// never closed.
    pub fn pop_scope(&mut self)
        requires
            old(self).wf(),
        ensures
            final(self).wf(),
            old(self).scopes@.len() > 1 ==> final(self).scopes@ == old(self).scopes@.drop_last(),
            old(self).scopes@.len() == 1 ==> final(self).scopes@ == old(self).scopes@,
    {
        if self.scopes.len() > 1 {
            self.scopes.pop();
        }
    }

    /// Declares the cursor `name` in the innermost scope; refused when that
    /// scope already declares it.
    pub fn declare(&mut self, name: String, query: Rc<CursorQuery>) -> (r: Result<(), EvalError>)
        requires
            old(self).wf(),
        ensures
            final(self).wf(),
            final(self).scopes@.len() == old(self).scopes@.len(),
            lookup(old(self).scopes@.last().declarations, name@) is Some ==> {
                &&& r matches Err(EvalError::CursorAlreadyDeclared(n)) && n@ == name@
                &&& *final(self) == *old(self)
            },
            lookup(old(self).scopes@.last().declarations, name@) is None ==> {
                &&& r is Ok
                &&& final(self).scopes@.drop_last() == old(self).scopes@.drop_last()
                &&& final(self).scopes@.last().instances == old(self).scopes@.last().instances
                &&& keyed(final(self).scopes@.last().declarations@) == catalog_set(
                    keyed(old(self).scopes@.last().declarations@),
                    name@,
                    query,
                )
            },
    {
        let last = self.scopes.len() - 1;
        if find_key(&self.scopes[last].declarations, name.as_str()).is_some() {
            proof {
                crate::db::catalog::lemma_name_index(keyed(self.scopes@[last as int].declarations@), name@);
            }
            return Err(EvalError::CursorAlreadyDeclared(name));
        }
        let mut scope = self.scopes.remove(last);
        let ghost before = scope;
        put_key(&mut scope.declarations, name, query);
        proof {
            lemma_put_key(before.declarations@, scope.declarations@, name@, query);
        }
        self.scopes.push(scope);
        proof {
            assert(self.scopes@.drop_last() =~= old(self).scopes@.drop_last());
        }
        Ok(())
    }

    /// The query of the cursor `name` (another handle to the declaration).
    pub fn query(&self, name: &str) -> (r: Option<Rc<CursorQuery>>)
        ensures
            r == self.declared_query(name@),
    {
        match self.owner_of(name) {
            Some(i) => match get_key(&self.scopes[i].declarations, name) {
                Some(q) => Some(share(q)),
                None => None,
            },
            None => None,
        }
    }

    /// The index of the scope owning the cursor `name`.
    fn owner_of(&self, name: &str) -> (r: Option<usize>)
        ensures
            match r {
                Some(i) => i < self.scopes@.len() && i == self.owner(name@),
                None => self.owner(name@) < 0,
            },
    {
        let mut i = self.scopes.len();
        assert(self.scopes@.take(i as int) =~= self.scopes@);
        while i > 0
            invariant
                i <= self.scopes@.len(),
                cursor_owner(self.scopes@, name@) == cursor_owner(self.scopes@.take(i as int), name@),
            decreases i,
        {
            proof {
                assert(self.scopes@.take(i as int).last() == self.scopes@[i - 1]);
                assert(self.scopes@.take(i as int).drop_last() =~= self.scopes@.take(i - 1));
            }
            match get_key(&self.scopes[i - 1].declarations, name) {
                Some(_) => {
                    return Some(i - 1);
                },
                None => {},
            }
            i -= 1;
        }
        proof {
            assert(self.scopes@.take(0) =~= Seq::<CursorScope>::empty());
        }
        None
    }

    /// Opens the cursor `name` over `rows`, positioned before the first row.
    pub fn open_rows(&mut self, name: &str, rows: Vec<Vec<Value>>) -> (r: Result<(), EvalError>)
        requires
            old(self).wf(),
        ensures
            final(self).wf(),
            old(self).owner(name@) < 0 ==> (r matches Err(EvalError::CursorNotDeclared(n)) && n@
                == name@ && *final(self) == *old(self)),
            old(self).owner(name@) >= 0 && old(self).instance(name@) is Some ==> (r matches Err(
                EvalError::CursorAlreadyOpen(n),
            ) && n@ == name@ && *final(self) == *old(self)),
            old(self).owner(name@) >= 0 && old(self).instance(name@) is None ==> {
                &&& r is Ok
                &&& final(self).same_but_instance(old(self), name@)
                &&& final(self).owner(name@) == old(self).owner(name@)
                &&& final(self).instance(name@) == Some(CursorInstance { rows, position: 0 })
            },
    {
        let i = match self.owner_of(name) {
            Some(i) => i,
            None => {
                return Err(EvalError::CursorNotDeclared(name.to_owned()));
            },
        };
        if get_key(&self.scopes[i].instances, name).is_some() {
            return Err(EvalError::CursorAlreadyOpen(name.to_owned()));
        }
        let ghost inst = CursorInstance { rows, position: 0 };
        let mut scope = self.scopes.remove(i);
        let ghost before = scope;
        put_key(&mut scope.instances, name.to_owned(), CursorInstance { rows, position: 0 });
        proof {
            lemma_put_key(before.instances@, scope.instances@, name@, inst);
        }
        self.scopes.insert(i, scope);
        proof {
            self.lemma_owner_kept(old(self), name@, i as int);
        }
        Ok(())
    }

    /// After scope `i` of `old` is replaced by one with the same
    /// declarations, owners are unchanged.
    proof fn lemma_owner_kept(&self, old: &Cursors, name: Seq<char>, i: int)
        requires
            self.scopes@.len() == old.scopes@.len(),
            0 <= i < self.scopes@.len(),
            self.scopes@[i].declarations == old.scopes@[i].declarations,
            forall|j: int| 0 <= j < self.scopes@.len() && j != i ==> self.scopes@[j] == old.scopes@[j],
        ensures
            forall|k: Seq<char>| #[trigger] self.owner(k) == old.owner(k),
            forall|j: int|
                0 <= j < self.scopes@.len() ==> (#[trigger] self.scopes@[j]).declarations
                    == old.scopes@[j].declarations,
    {
        assert forall|j: int|
            0 <= j < self.scopes@.len() implies (#[trigger] self.scopes@[j]).declarations
            == old.scopes@[j].declarations by {
            if j != i {
                assert(self.scopes@[j] == old.scopes@[j]);
            }
        }
        assert forall|k: Seq<char>| #[trigger] self.owner(k) == old.owner(k) by {
            lemma_cursor_owner_same(self.scopes@, old.scopes@, k);
        }
    }

    /// Fetches the next row of the open cursor `name`: `None` once every row
    /// has been fetched.
    pub fn next_row(&mut self, name: &str) -> (r: Result<Option<Vec<Value>>, EvalError>)
        requires
            old(self).wf(),
        ensures
            final(self).wf(),
            match old(self).instance(name@) {
                None => (r matches Err(EvalError::CursorNotOpen(n)) && n@ == name@ && *final(self)
                    == *old(self)),
                Some(inst) => if inst.position >= inst.rows@.len() {
                    r == Ok::<Option<Vec<Value>>, EvalError>(None) && *final(self) == *old(self)
                } else {
                    &&& r matches Ok(Some(row)) && row@ == inst.rows@[inst.position as int]@
                    &&& final(self).same_but_instance(old(self), name@)
                    &&& final(self).owner(name@) == old(self).owner(name@)
                    &&& final(self).instance(name@) == Some(
                        CursorInstance { rows: inst.rows, position: (inst.position + 1) as usize },
                    )
                },
            },
    {
        let i = match self.owner_of(name) {
            Some(i) => i,
            None => {
                return Err(EvalError::CursorNotOpen(name.to_owned()));
            },
        };
        match get_key(&self.scopes[i].instances, name) {
            None => {
                return Err(EvalError::CursorNotOpen(name.to_owned()));
            },
            Some(inst) => {
                if inst.position >= inst.rows.len() {
                    return Ok(None);
                }
            },
        }
        let mut scope = self.scopes.remove(i);
        let ghost before = scope;
        let mut inst = match take_key(&mut scope.instances, name) {
            Some(inst) => inst,
            None => {
                proof {
                    assert(false);
                }
                return Ok(None);
            },
        };
        let row = clone_values(&inst.rows[inst.position]);
        inst.position = inst.position + 1;
        let ghost taken = scope;
        let ghost new_inst = inst;
        proof {
            lemma_catalog_remove(keyed(before.instances@), name@, name@);
        }
        put_key(&mut scope.instances, name.to_owned(), inst);
        proof {
            lemma_put_key(taken.instances@, scope.instances@, name@, new_inst);
            assert forall|k: Seq<char>| k != name@ implies #[trigger] lookup(scope.instances, k) == lookup(
                before.instances,
                k,
            ) by {
                lemma_catalog_remove(keyed(before.instances@), name@, k);
            }
        }
        self.scopes.insert(i, scope);
        proof {
            self.lemma_owner_kept(old(self), name@, i as int);
        }
        Ok(Some(row))
    }

    /// Closes the open cursor `name`.
    pub fn close(&mut self, name: &str) -> (r: Result<(), EvalError>)
        requires
            old(self).wf(),
        ensures
            final(self).wf(),
            old(self).instance(name@) is None ==> (r matches Err(EvalError::CursorNotOpen(n)) && n@
                == name@ && *final(self) == *old(self)),
            old(self).instance(name@) is Some ==> {
                &&& r is Ok
                &&& final(self).same_but_instance(old(self), name@)
                &&& final(self).owner(name@) == old(self).owner(name@)
                &&& final(self).instance(name@) is None
            },
    {
        let i = match self.owner_of(name) {
            Some(i) => i,
            None => {
                return Err(EvalError::CursorNotOpen(name.to_owned()));
            },
        };
        if get_key(&self.scopes[i].instances, name).is_none() {
            return Err(EvalError::CursorNotOpen(name.to_owned()));
        }
        let mut scope = self.scopes.remove(i);
        let ghost before = scope;
        let _ = take_key(&mut scope.instances, name);
        proof {
            lemma_catalog_remove(keyed(before.instances@), name@, name@);
            assert forall|k: Seq<char>| k != name@ implies #[trigger] lookup(scope.instances, k) == lookup(
                before.instances,
                k,
            ) by {
                lemma_catalog_remove(keyed(before.instances@), name@, k);
            }
        }
        self.scopes.insert(i, scope);
        proof {
            self.lemma_owner_kept(old(self), name@, i as int);
        }
        Ok(())
    }
}

/// A copy of a row of values.
pub fn clone_values(values: &Vec<Value>) -> (r: Vec<Value>)
    ensures
        r@ == values@,
{
    let mut out: Vec<Value> = Vec::new();
    let mut i: usize = 0;
    while i < values.len()
        invariant
            i <= values@.len(),
            out@ == values@.take(i as int),
        decreases values@.len() - i,
    {
        out.push(values[i].clone());
        proof {
            assert(values@.take(i + 1) =~= values@.take(i as int).push(values@[i as int]));
        }
        i += 1;
    }
    assert(values@.take(values@.len() as int) =~= values@);
    out
}

} // verus!
