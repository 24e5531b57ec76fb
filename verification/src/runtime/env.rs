use vstd::prelude::*;

use super::names::{contains_name, find_key, get_key, keyed, lookup, put_key};
use crate::cursors::Cursors;
use crate::db::catalog::{catalog_get, catalog_set, names_unique};
use crate::db::Database;
use crate::expr::eval::{concat2, EvalError};
use crate::expr::fields::{
    entries_get, entries_insert, field_entries, fields_get, fields_insert, fields_new, Fields,
};
use crate::expr::value::{
    accepts, chars_of, string_from_chars, type_from_name_spec, type_name_spec, type_of, DataType,
    Value,
};
use crate::routines::Routines;
use crate::triggers::Triggers;

verus! {

/// The step budget of one top-level execution: every loop iteration,
/// routine call and trigger run takes one step.
pub const STEP_BUDGET: u64 = 1_000_000;

/// The names bound by one block (or row, trigger or call) scope.
#[derive(Debug)]
pub struct Scope {
    pub vars: Vec<(String, Value)>,
    pub types: Vec<(String, DataType)>,
    pub query_bindings: Vec<(String, Value)>,
    pub query_columns: Vec<(String, Value)>,
    pub query_ambiguous: Vec<String>,
}

impl Scope {
    /// A scope binding nothing.
    pub fn new() -> (r: Scope)
        ensures
            r.vars@.len() == 0,
            r.types@.len() == 0,
            r.query_bindings@.len() == 0,
            r.query_columns@.len() == 0,
            r.query_ambiguous@.len() == 0,
    {
        Scope {
            vars: Vec::new(),
            types: Vec::new(),
            query_bindings: Vec::new(),
            query_columns: Vec::new(),
            query_ambiguous: Vec::new(),
        }
    }

    /// Names in each list of the scope are unique.
    pub open spec fn wf(self) -> bool {
        &&& names_unique(keyed(self.vars@))
        &&& names_unique(keyed(self.types@))
        &&& names_unique(keyed(self.query_bindings@))
        &&& names_unique(keyed(self.query_columns@))
    }
}

/// The position of the first `.` in `s`, or `-1`.
pub open spec fn dot_index(s: Seq<char>) -> int
    decreases s.len(),
{
    if s.len() == 0 {
        -1
    } else if s[0] == '.' {
        0
    } else {
        let p = dot_index(s.drop_first());
        if p < 0 {
            -1
        } else {
            p + 1
        }
    }
}

/// Facts about `dot_index`.
pub proof fn lemma_dot_index(s: Seq<char>)
    ensures
        -1 <= dot_index(s) < s.len(),
        dot_index(s) >= 0 ==> s[dot_index(s)] == '.',
        forall|i: int| 0 <= i < s.len() && (dot_index(s) < 0 || i < dot_index(s)) ==> s[i] != '.',
    decreases s.len(),
{
    if s.len() > 0 && s[0] != '.' {
        lemma_dot_index(s.drop_first());
        assert forall|i: int|
            0 <= i < s.len() && (dot_index(s) < 0 || i < dot_index(s)) implies s[i] != '.' by {
            if i > 0 {
                assert(s[i] == s.drop_first()[i - 1]);
            }
        }
    }
}

/// The part of `s` before its first `.`.
pub open spec fn head_of(s: Seq<char>) -> Seq<char> {
    s.subrange(0, dot_index(s))
}

/// The part of `s` after its first `.`.
pub open spec fn tail_of(s: Seq<char>) -> Seq<char> {
    s.subrange(dot_index(s) + 1, s.len() as int)
}

/// Splits `name` at its first `.`.
pub fn split_at_dot(name: &str) -> (r: Option<(String, String)>)
    ensures
        match r {
            Some((h, t)) => dot_index(name@) >= 0 && h@ == head_of(name@) && t@ == tail_of(name@),
            None => dot_index(name@) < 0,
        },
{
    let c = chars_of(name);
    proof {
        lemma_dot_index(name@);
    }
    let mut i: usize = 0;
    while i < c.len()
        invariant
            i <= c@.len(),
            c@ == name@,
            forall|k: int| 0 <= k < i ==> c@[k] != '.',
        decreases c@.len() - i,
    {
        if c[i] == '.' {
            proof {
                lemma_dot_index(name@);
                let p = dot_index(name@);
                if p >= 0 && p < i {
                    assert(c@[p] != '.');
                }
                assert(p == i);
            }
            let head = string_from_chars(vstd::slice::slice_subrange(c.as_slice(), 0, i));
            let tail = string_from_chars(vstd::slice::slice_subrange(c.as_slice(), i + 1, c.len()));
            return Some((head, tail));
        }
        i += 1;
    }
    proof {
        let p = dot_index(name@);
        if p >= 0 {
            assert(c@[p] == '.');
        }
    }
    None
}

/// The value at `path` inside `value`: a field of a record (NULL when
/// missing), recursively along `.`; NULL inside NULL; nothing inside any
/// other value.
pub open spec fn path_value(value: Value, path: Seq<char>) -> Option<Value>
    decreases path.len(),
{
    match value {
        Value::Record(f) => {
            if dot_index(path) >= 0 {
                let next = match entries_get(field_entries(f), head_of(path)) {
                    Some(v) => v,
                    None => Value::Null,
                };
                proof {
                    lemma_dot_index(path);
                }
                path_value(next, tail_of(path))
            } else {
                match entries_get(field_entries(f), path) {
                    Some(v) => Some(v),
                    None => Some(Value::Null),
                }
            }
        },
        Value::Null => Some(Value::Null),
        _ => None,
    }
}

/// The variable `name` as seen from the innermost scope outward.
pub open spec fn var_lookup(scopes: Seq<Scope>, name: Seq<char>) -> Option<Value>
    decreases scopes.len(),
{
    if scopes.len() == 0 {
        None
    } else {
        match lookup(scopes.last().vars, name) {
            Some(v) => Some(v),
            None => var_lookup(scopes.drop_last(), name),
        }
    }
}

/// What `Environment::get` gives for `name`.
pub open spec fn get_spec(scopes: Seq<Scope>, name: Seq<char>) -> Option<Value> {
    if dot_index(name) >= 0 {
        match var_lookup(scopes, head_of(name)) {
            Some(v) => path_value(v, tail_of(name)),
            None => None,
        }
    } else {
        var_lookup(scopes, name)
    }
}

/// The outcome of resolving a plain name in expressions.
pub enum Resolution {
    Ambiguous,
    Found(Value),
    Missing,
}

/// Name resolution from the innermost scope outward: in each scope an
/// ambiguous column name is an error, then query bindings, query columns and
/// variables are tried in that order.
pub open spec fn resolve_plain(scopes: Seq<Scope>, name: Seq<char>) -> Resolution
    decreases scopes.len(),
{
    if scopes.len() == 0 {
        Resolution::Missing
    } else {
        let s = scopes.last();
        if exists|i: int| 0 <= i < s.query_ambiguous@.len() && s.query_ambiguous@[i]@ == name {
            Resolution::Ambiguous
        } else if let Some(v) = lookup(s.query_bindings, name) {
            Resolution::Found(v)
        } else if let Some(v) = lookup(s.query_columns, name) {
            Resolution::Found(v)
        } else if let Some(v) = lookup(s.vars, name) {
            Resolution::Found(v)
        } else {
            resolve_plain(scopes.drop_last(), name)
        }
    }
}

/// The innermost scope binding the variable `name`, or `-1`.
pub open spec fn owner_scope(scopes: Seq<Scope>, name: Seq<char>) -> int
    decreases scopes.len(),
{
    if scopes.len() == 0 {
        -1
    } else if lookup(scopes.last().vars, name) is Some {
        scopes.len() - 1
    } else {
        owner_scope(scopes.drop_last(), name)
    }
}

/// `new` is `old` with the entries `entries` as its fields: a record field
/// map replaced, or a non-record replaced by a record.
pub open spec fn record_entries(v: Option<Value>) -> Seq<(Seq<char>, Value)> {
    match v {
        Some(Value::Record(f)) => field_entries(f),
        _ => Seq::empty(),
    }
}

/// `new` is what assigning `value` at `path` inside `old` gives: each step
/// along the path turns a non-record into an empty record, a missing field is
/// added last and an existing one keeps its place.
pub open spec fn path_assigned(old: Option<Value>, path: Seq<char>, value: Value, new: Value) -> bool
    decreases path.len(),
{
    match new {
        Value::Record(f) => {
            if dot_index(path) >= 0 {
                let base = record_entries(old);
                &&& entries_get(field_entries(f), head_of(path)) matches Some(child)
                &&& field_entries(f) == entries_insert(base, head_of(path), child)
                &&& {
                    proof {
                        lemma_dot_index(path);
                    }
                    path_assigned(entries_get(base, head_of(path)), tail_of(path), value, child)
                }
            } else {
                field_entries(f) == entries_insert(record_entries(old), path, value)
            }
        },
        _ => false,
    }
}

/// The declared type of `name` in the scope that owns it, if any.
pub open spec fn owner_type(scopes: Seq<Scope>, name: Seq<char>) -> Option<DataType> {
    let o = owner_scope(scopes, name);
    if o >= 0 {
        lookup(scopes[o].types, name)
    } else {
        None
    }
}

/// The scope an assignment to `name` writes: the one that owns it, or the
/// innermost one.
pub open spec fn assign_target(scopes: Seq<Scope>, name: Seq<char>) -> int {
    let o = owner_scope(scopes, name);
    if o < 0 {
        scopes.len() - 1
    } else {
        o
    }
}

/// Assigning `value` to `name` is refused by its declared type.
pub open spec fn assign_refused(scopes: Seq<Scope>, name: Seq<char>, value: Value) -> bool {
    owner_type(scopes, name) matches Some(t) && !accepts(t, value)
}

/// `new` is `old` with `value` stored under `name` among the variables of
/// scope `i`, everything else as it was.
pub open spec fn var_stored(old: Seq<Scope>, new: Seq<Scope>, i: int, name: Seq<char>, value: Value) -> bool {
    &&& new.len() == old.len()
    &&& 0 <= i < old.len()
    &&& forall|j: int| 0 <= j < old.len() && j != i ==> #[trigger] new[j] == old[j]
    &&& lookup(new[i].vars, name) == Some(value)
    &&& forall|k: Seq<char>| k != name ==> #[trigger] lookup(new[i].vars, k) == lookup(old[i].vars, k)
    &&& new[i].types == old[i].types
    &&& new[i].query_bindings == old[i].query_bindings
    &&& new[i].query_columns == old[i].query_columns
    &&& new[i].query_ambiguous == old[i].query_ambiguous
}

/// `new` is `old` after assigning `value` at `path` inside the variable
/// `head` (in the scope that owns it, or else the innermost one).
pub open spec fn path_stored(old: Seq<Scope>, new: Seq<Scope>, head: Seq<char>, path: Seq<char>, value: Value) -> bool {
    let i = assign_target(old, head);
    &&& exists|nv: Value| #[trigger] var_stored(old, new, i, head, nv) && path_assigned(lookup(old[i].vars, head), path, value, nv)
}

/// `variable `name` expects RECORD, got T`.
pub open spec fn record_expected_message(name: Seq<char>, t: DataType) -> Seq<char> {
    "variable `"@ + name + "` expects RECORD, got "@ + type_name_spec(t)
}

/// The variables, types, cursors and triggers of nested scopes, the
/// database and the declared routines.
#[derive(Debug)]
pub struct Environment {
    pub scopes: Vec<Scope>,
    pub database: Database,
    pub cursors: Cursors,
    pub triggers: Triggers,
    pub routines: Routines,
    pub steps: u64,
}

/// `variable `name` expects T, got U`.
pub open spec fn expects_message(name: Seq<char>, t: DataType, v: Value) -> Seq<char> {
    "variable `"@ + name + "` expects "@ + type_name_spec(t) + ", got "@ + type_name_spec(type_of(v))
}

/// `unknown type `T` for variable `name``.
pub open spec fn unknown_type_message(type_text: Seq<char>, name: Seq<char>) -> Seq<char> {
    "unknown type `"@ + type_text + "` for variable `"@ + name + "`"@
}

/// `a@ + b@ + c@ + d@ + e@ + f@`, as a new string.
pub fn concat6(a: &str, b: &str, c: &str, d: &str, e: &str, f: &str) -> (r: String)
    ensures
        r@ == a@ + b@ + c@ + d@ + e@ + f@,
{
    let mut s = a.to_owned();
    s.append(b);
    s.append(c);
    s.append(d);
    s.append(e);
    s.append(f);
    s
}

/// `a@ + b@ + c@ + d@ + e@`, as a new string.
pub fn concat5(a: &str, b: &str, c: &str, d: &str, e: &str) -> (r: String)
    ensures
        r@ == a@ + b@ + c@ + d@ + e@,
{
    let mut s = a.to_owned();
    s.append(b);
    s.append(c);
    s.append(d);
    s.append(e);
    s
}

impl Environment {
    /// The environment is well formed.
    pub open spec fn wf(&self) -> bool {
        &&& self.scopes@.len() > 0
        &&& forall|i: int| 0 <= i < self.scopes@.len() ==> (#[trigger] self.scopes@[i]).wf()
        &&& self.database.wf()
        &&& self.cursors.wf()
        &&& self.triggers.wf()
        &&& self.routines.wf()
    }

    /// A fresh environment: one empty scope, an empty database, no cursors,
    /// triggers or routines, and the full step budget.
    pub fn new() -> (r: Environment)
        ensures
            r.wf(),
            r.scopes@.len() == 1,
            r.scopes@[0].vars@.len() == 0,
            r.database.committed().len() == 0,
            !r.database.in_transaction(),
            r.steps == STEP_BUDGET,
    {
        let mut scopes: Vec<Scope> = Vec::new();
        scopes.push(Scope::new());
        let r = Environment {
            scopes,
            database: Database::new(),
            cursors: Cursors::new(),
            triggers: Triggers::new(),
            routines: Routines::new(),
            steps: STEP_BUDGET,
        };
        proof {
            assert(keyed(r.scopes@[0].vars@) =~= Seq::empty());
            assert(keyed(r.scopes@[0].types@) =~= Seq::empty());
            assert(keyed(r.scopes@[0].query_bindings@) =~= Seq::empty());
            assert(keyed(r.scopes@[0].query_columns@) =~= Seq::empty());
        }
        r
    }

    /// Opens a nested scope (variables, cursors and triggers).
    pub fn push_scope(&mut self)
        requires
            old(self).wf(),
        ensures
            final(self).wf(),
            final(self).scopes@ == old(self).scopes@.push(final(self).scopes@.last()),
            final(self).scopes@.last().vars@.len() == 0,
            final(self).scopes@.last().types@.len() == 0,
            final(self).scopes@.last().query_ambiguous@.len() == 0,
            final(self).scopes@.last().query_bindings@.len() == 0,
            final(self).scopes@.last().query_columns@.len() == 0,
            final(self).database == old(self).database,
            final(self).routines == old(self).routines,
            final(self).steps == old(self).steps,
            final(self).cursors.scopes@ == old(self).cursors.scopes@.push(
                final(self).cursors.scopes@.last(),
            ),
            final(self).cursors.scopes@.last().declarations@.len() == 0,
            final(self).triggers.scopes@.drop_last() == old(self).triggers.scopes@,
            final(self).scopes@.drop_last() == old(self).scopes@,
            final(self).triggers.scopes@ == old(self).triggers.scopes@.push(
                final(self).triggers.scopes@.last(),
            ),
    {
        let s = Scope::new();
        proof {
            assert(keyed(s.vars@) =~= Seq::empty());
            assert(keyed(s.types@) =~= Seq::empty());
            assert(keyed(s.query_bindings@) =~= Seq::empty());
            assert(keyed(s.query_columns@) =~= Seq::empty());
        }
        self.scopes.push(s);
        self.cursors.push_scope();
        self.triggers.push_scope();
        proof {
            assert(self.triggers.scopes@.drop_last() =~= old(self).triggers.scopes@);
            assert(self.scopes@.drop_last() =~= old(self).scopes@);
        }
    }

    /// Closes the innermost scope; the outermost scope is never closed.
    pub fn pop_scope(&mut self)
        requires
            old(self).wf(),
        ensures
            final(self).wf(),
            old(self).scopes@.len() > 1 ==> final(self).scopes@ == old(self).scopes@.drop_last(),
            old(self).scopes@.len() == 1 ==> final(self).scopes@ == old(self).scopes@,
            old(self).cursors.scopes@.len() > 1 ==> final(self).cursors.scopes@ == old(self).cursors.scopes@.drop_last(),
            old(self).triggers.scopes@.len() > 1 ==> final(self).triggers.scopes@ == old(self).triggers.scopes@.drop_last(),
            final(self).database == old(self).database,
            final(self).routines == old(self).routines,
            final(self).steps == old(self).steps,
    {
        if self.scopes.len() > 1 {
            self.scopes.pop();
        }
        self.cursors.pop_scope();
        self.triggers.pop_scope();
    }

    /// The database.
    pub fn database(&self) -> (r: &Database)
        ensures
            *r == self.database,
    {
        &self.database
    }

    /// The database, for changes made from outside a block.
    pub fn database_mut(&mut self) -> (r: &mut Database)
        ensures
            *r == old(self).database,
            final(self).database == *final(r),
            final(self).scopes == old(self).scopes,
            final(self).cursors == old(self).cursors,
            final(self).triggers == old(self).triggers,
            final(self).routines == old(self).routines,
            final(self).steps == old(self).steps,
    {
        &mut self.database
    }

    /// The cursors.
    pub fn cursors(&self) -> (r: &Cursors)
        ensures
            *r == self.cursors,
    {
        &self.cursors
    }

    /// The triggers.
    pub fn triggers(&self) -> (r: &Triggers)
        ensures
            *r == self.triggers,
    {
        &self.triggers
    }

    /// The routines.
    pub fn routines(&self) -> (r: &Routines)
        ensures
            *r == self.routines,
    {
        &self.routines
    }

    /// Declares a variable of the named type in the innermost scope. Refused
    /// when the type is unknown or does not accept `value`.
    pub fn declare(&mut self, name: String, value: Value, type_text: &str) -> (r: Result<(), EvalError>)
        requires
            old(self).wf(),
        ensures
            final(self).wf(),
            final(self).database == old(self).database,
            final(self).cursors == old(self).cursors,
            final(self).triggers == old(self).triggers,
            final(self).routines == old(self).routines,
            final(self).steps == old(self).steps,
            final(self).scopes@.len() == old(self).scopes@.len(),
            match type_from_name_spec(type_text@) {
                None => r matches Err(EvalError::TypeError(m)) && m@ == unknown_type_message(
                    type_text@,
                    name@,
                ) && final(self).scopes@ == old(self).scopes@,
                Some(t) => if !accepts(t, value) {
                    r matches Err(EvalError::TypeError(m)) && m@ == expects_message(name@, t, value)
                        && final(self).scopes@ == old(self).scopes@
                } else {
                    &&& r is Ok
                    &&& final(self).scopes@.drop_last() == old(self).scopes@.drop_last()
                    &&& lookup(final(self).scopes@.last().vars, name@) == Some(value)
                    &&& lookup(final(self).scopes@.last().types, name@) == Some(t)
                    &&& forall|k: Seq<char>|
                        k != name@ ==> #[trigger] lookup(final(self).scopes@.last().vars, k) == lookup(
                            old(self).scopes@.last().vars,
                            k,
                        )
                    &&& forall|k: Seq<char>|
                        k != name@ ==> #[trigger] lookup(final(self).scopes@.last().types, k) == lookup(
                            old(self).scopes@.last().types,
                            k,
                        )
                    &&& final(self).scopes@.last().query_bindings == old(self).scopes@.last().query_bindings
                    &&& final(self).scopes@.last().query_columns == old(self).scopes@.last().query_columns
                    &&& final(self).scopes@.last().query_ambiguous == old(self).scopes@.last().query_ambiguous
                },
            },
    {
        let declared = match DataType::from_name(type_text) {
            Some(t) => t,
            None => {
                return Err(
                    EvalError::TypeError(concat5("unknown type `", type_text, "` for variable `", name.as_str(), "`")),
                );
            },
        };
        if !declared.accept(&value) {
            return Err(
                EvalError::TypeError(
                    concat6(
                        "variable `",
                        name.as_str(),
                        "` expects ",
                        declared.name(),
                        ", got ",
                        value.type_label(),
                    ),
                ),
            );
        }
        let last = self.scopes.len() - 1;
        let mut scope = self.scopes.remove(last);
        let ghost old_scope = scope;
        put_key(&mut scope.vars, name.clone(), value);
        put_key(&mut scope.types, name, declared);
        proof {
            super::names::lemma_put_key(old_scope.vars@, scope.vars@, name@, value);
            super::names::lemma_put_key(old_scope.types@, scope.types@, name@, declared);
        }
        self.scopes.push(scope);
        proof {
            assert(self.scopes@.drop_last() =~= old(self).scopes@.drop_last());
        }
        Ok(())
    }

    /// The variable `name` (or the field path `head.tail...` inside it), from
    /// the innermost scope outward; query bindings are not consulted.
    pub fn get(&self, name: &str) -> (r: Option<Value>)
        ensures
            r == get_spec(self.scopes@, name@),
    {
        match split_at_dot(name) {
            Some((head, tail)) => match self.lookup_var(head.as_str()) {
                Some(v) => get_path_value(v, tail.as_str()),
                None => None,
            },
            None => self.lookup_var(name),
        }
    }

    /// The variable `name` from the innermost scope outward.
    pub fn lookup_var(&self, name: &str) -> (r: Option<Value>)
        ensures
            r == var_lookup(self.scopes@, name@),
    {
        let mut i = self.scopes.len();
        assert(self.scopes@.take(i as int) =~= self.scopes@);
        while i > 0
            invariant
                i <= self.scopes@.len(),
                var_lookup(self.scopes@, name@) == var_lookup(self.scopes@.take(i as int), name@),
            decreases i,
        {
            proof {
                assert(self.scopes@.take(i as int).last() == self.scopes@[i - 1]);
                assert(self.scopes@.take(i as int).drop_last() =~= self.scopes@.take(i - 1));
            }
            match get_key(&self.scopes[i - 1].vars, name) {
                Some(v) => {
                    return Some(v.clone());
                },
                None => {},
            }
            i -= 1;
        }
        proof {
            assert(self.scopes@.take(0) =~= Seq::<Scope>::empty());
        }
        None
    }

    /// Binds `name` to `value` in the innermost scope, without type checking.
    pub fn set(&mut self, name: &str, value: Value)
        requires
            old(self).wf(),
        ensures
            final(self).wf(),
            final(self).scopes@.len() == old(self).scopes@.len(),
            final(self).scopes@.drop_last() == old(self).scopes@.drop_last(),
            keyed(final(self).scopes@.last().vars@) == catalog_set(
                keyed(old(self).scopes@.last().vars@),
                name@,
                value,
            ),
            final(self).scopes@.last().types == old(self).scopes@.last().types,
            final(self).scopes@.last().query_bindings == old(self).scopes@.last().query_bindings,
            final(self).scopes@.last().query_columns == old(self).scopes@.last().query_columns,
            final(self).scopes@.last().query_ambiguous == old(self).scopes@.last().query_ambiguous,
            final(self).database == old(self).database,
            final(self).cursors == old(self).cursors,
            final(self).triggers == old(self).triggers,
            final(self).routines == old(self).routines,
            final(self).steps == old(self).steps,
    {
        let last = self.scopes.len() - 1;
        let mut scope = self.scopes.remove(last);
        let ghost old_scope = scope;
        put_key(&mut scope.vars, name.to_owned(), value);
        proof {
            super::names::lemma_put_key(old_scope.vars@, scope.vars@, name@, value);
        }
        self.scopes.push(scope);
        proof {
            assert(self.scopes@.drop_last() =~= old(self).scopes@.drop_last());
        }
    }

    /// Binds a query source (a table or alias) to its current row.
    pub fn bind_query_binding(&mut self, name: String, value: Value)
        requires
            old(self).wf(),
        ensures
            final(self).wf(),
            final(self).scopes@.len() == old(self).scopes@.len(),
            final(self).scopes@.drop_last() == old(self).scopes@.drop_last(),
            keyed(final(self).scopes@.last().query_bindings@) == catalog_set(
                keyed(old(self).scopes@.last().query_bindings@),
                name@,
                value,
            ),
            final(self).scopes@.last().vars == old(self).scopes@.last().vars,
            final(self).scopes@.last().query_columns == old(self).scopes@.last().query_columns,
            final(self).scopes@.last().query_ambiguous == old(self).scopes@.last().query_ambiguous,
            final(self).database == old(self).database,
            final(self).cursors == old(self).cursors,
            final(self).triggers == old(self).triggers,
            final(self).routines == old(self).routines,
            final(self).steps == old(self).steps,
    {
        let last = self.scopes.len() - 1;
        let mut scope = self.scopes.remove(last);
        let ghost old_scope = scope;
        put_key(&mut scope.query_bindings, name, value);
        proof {
            super::names::lemma_put_key(old_scope.query_bindings@, scope.query_bindings@, name@, value);
        }
        self.scopes.push(scope);
        proof {
            assert(self.scopes@.drop_last() =~= old(self).scopes@.drop_last());
        }
    }

    /// Binds an unambiguous column name to its value in the current row.
    pub fn bind_query_column(&mut self, name: String, value: Value)
        requires
            old(self).wf(),
        ensures
            final(self).wf(),
            final(self).scopes@.len() == old(self).scopes@.len(),
            final(self).scopes@.drop_last() == old(self).scopes@.drop_last(),
            keyed(final(self).scopes@.last().query_columns@) == catalog_set(
                keyed(old(self).scopes@.last().query_columns@),
                name@,
                value,
            ),
            final(self).scopes@.last().vars == old(self).scopes@.last().vars,
            final(self).scopes@.last().query_bindings == old(self).scopes@.last().query_bindings,
            final(self).scopes@.last().query_ambiguous == old(self).scopes@.last().query_ambiguous,
            final(self).database == old(self).database,
            final(self).cursors == old(self).cursors,
            final(self).triggers == old(self).triggers,
            final(self).routines == old(self).routines,
            final(self).steps == old(self).steps,
    {
        let last = self.scopes.len() - 1;
        let mut scope = self.scopes.remove(last);
        let ghost old_scope = scope;
        put_key(&mut scope.query_columns, name, value);
        proof {
            super::names::lemma_put_key(old_scope.query_columns@, scope.query_columns@, name@, value);
        }
        self.scopes.push(scope);
        proof {
            assert(self.scopes@.drop_last() =~= old(self).scopes@.drop_last());
        }
    }

    /// Marks a column name as ambiguous in the current row scope.
    pub fn mark_query_ambiguous(&mut self, name: String)
        requires
            old(self).wf(),
        ensures
            final(self).wf(),
            final(self).scopes@.len() == old(self).scopes@.len(),
            final(self).scopes@.drop_last() == old(self).scopes@.drop_last(),
            final(self).scopes@.last().query_ambiguous@ == old(self).scopes@.last().query_ambiguous@.push(
                name,
            ),
            final(self).scopes@.last().vars == old(self).scopes@.last().vars,
            final(self).scopes@.last().query_bindings == old(self).scopes@.last().query_bindings,
            final(self).scopes@.last().query_columns == old(self).scopes@.last().query_columns,
            final(self).database == old(self).database,
            final(self).cursors == old(self).cursors,
            final(self).triggers == old(self).triggers,
            final(self).routines == old(self).routines,
            final(self).steps == old(self).steps,
    {
        let last = self.scopes.len() - 1;
        let mut scope = self.scopes.remove(last);
        scope.query_ambiguous.push(name);
        self.scopes.push(scope);
        proof {
            assert(self.scopes@.drop_last() =~= old(self).scopes@.drop_last());
        }
    }

    /// Resolves a plain name (no `.`) for expressions.
    fn resolve_plain_name(&self, name: &str) -> (r: Result<Option<Value>, EvalError>)
        ensures
            match resolve_plain(self.scopes@, name@) {
                Resolution::Ambiguous => r matches Err(EvalError::AmbiguousColumn(n)) && n@ == name@,
                Resolution::Found(v) => r == Ok::<Option<Value>, EvalError>(Some(v)),
                Resolution::Missing => r == Ok::<Option<Value>, EvalError>(None),
            },
    {
        let mut i = self.scopes.len();
        assert(self.scopes@.take(i as int) =~= self.scopes@);
        while i > 0
            invariant
                i <= self.scopes@.len(),
                resolve_plain(self.scopes@, name@) == resolve_plain(self.scopes@.take(i as int), name@),
            decreases i,
        {
            proof {
                assert(self.scopes@.take(i as int).last() == self.scopes@[i - 1]);
                assert(self.scopes@.take(i as int).drop_last() =~= self.scopes@.take(i - 1));
            }
            let scope = &self.scopes[i - 1];
            if contains_name(&scope.query_ambiguous, name) {
                return Err(EvalError::AmbiguousColumn(name.to_owned()));
            }
            match get_key(&scope.query_bindings, name) {
                Some(v) => {
                    return Ok(Some(v.clone()));
                },
                None => {},
            }
            match get_key(&scope.query_columns, name) {
                Some(v) => {
                    return Ok(Some(v.clone()));
                },
                None => {},
            }
            match get_key(&scope.vars, name) {
                Some(v) => {
                    return Ok(Some(v.clone()));
                },
                None => {},
            }
            i -= 1;
        }
        proof {
            assert(self.scopes@.take(0) =~= Seq::<Scope>::empty());
        }
        Ok(None)
    }

    /// Resolves a name for expressions: row bindings and unambiguous columns
    /// of queries come before variables in each scope; a dotted name reads a
    /// field path inside the resolved head.
    pub fn resolve(&self, name: &str) -> (r: Result<Option<Value>, EvalError>)
        ensures
            dot_index(name@) < 0 ==> match resolve_plain(self.scopes@, name@) {
                Resolution::Ambiguous => r matches Err(EvalError::AmbiguousColumn(n)) && n@ == name@,
                Resolution::Found(v) => r == Ok::<Option<Value>, EvalError>(Some(v)),
                Resolution::Missing => r == Ok::<Option<Value>, EvalError>(None),
            },
            dot_index(name@) >= 0 ==> match resolve_plain(self.scopes@, head_of(name@)) {
                Resolution::Ambiguous => r matches Err(EvalError::AmbiguousColumn(n)) && n@
                    == head_of(name@),
                Resolution::Found(v) => r == Ok::<Option<Value>, EvalError>(
                    path_value(v, tail_of(name@)),
                ),
                Resolution::Missing => r == Ok::<Option<Value>, EvalError>(None),
            },
    {
        match split_at_dot(name) {
            Some((head, tail)) => {
                let v = self.resolve_plain_name(head.as_str())?;
                match v {
                    Some(v) => Ok(get_path_value(v, tail.as_str())),
                    None => Ok(None),
                }
            },
            None => self.resolve_plain_name(name),
        }
    }

    /// The index of the innermost scope binding the variable `name`.
    fn owner_of(&self, name: &str) -> (r: Option<usize>)
        ensures
            match r {
                Some(i) => i < self.scopes@.len() && i == owner_scope(self.scopes@, name@),
                None => owner_scope(self.scopes@, name@) < 0,
            },
    {
        let mut i = self.scopes.len();
        assert(self.scopes@.take(i as int) =~= self.scopes@);
        while i > 0
            invariant
                i <= self.scopes@.len(),
                owner_scope(self.scopes@, name@) == owner_scope(self.scopes@.take(i as int), name@),
            decreases i,
        {
            proof {
                assert(self.scopes@.take(i as int).last() == self.scopes@[i - 1]);
                assert(self.scopes@.take(i as int).drop_last() =~= self.scopes@.take(i - 1));
            }
            match find_key(&self.scopes[i - 1].vars, name) {
                Some(_) => {
                    proof {
                        crate::db::catalog::lemma_name_index(keyed(self.scopes@[i - 1].vars@), name@);
                    }
                    return Some(i - 1);
                },
                None => {},
            }
            i -= 1;
        }
        proof {
            assert(self.scopes@.take(0) =~= Seq::<Scope>::empty());
        }
        None
    }

    /// Assigns to a variable: the innermost scope binding `name` gets the
    /// value (checked against its declared type, if any); when no scope binds
    /// it, it is bound in the innermost scope. A dotted name assigns a field
    /// path inside a record variable (which must be declared RECORD if typed),
    /// creating the record when the variable does not exist.
    pub fn assign(&mut self, name: &str, value: Value) -> (r: Result<(), EvalError>)
        requires
            old(self).wf(),
        ensures
            final(self).wf(),
            final(self).scopes@.len() == old(self).scopes@.len(),
            final(self).database == old(self).database,
            final(self).cursors == old(self).cursors,
            final(self).triggers == old(self).triggers,
            final(self).routines == old(self).routines,
            final(self).steps == old(self).steps,
            dot_index(name@) < 0 && assign_refused(old(self).scopes@, name@, value) ==> (r matches Err(
                EvalError::TypeError(m),
            ) && m@ == expects_message(name@, owner_type(old(self).scopes@, name@)->0, value)
                && final(self).scopes@ == old(self).scopes@),
            dot_index(name@) < 0 && !assign_refused(old(self).scopes@, name@, value) ==> (r is Ok
                && var_stored(
                old(self).scopes@,
                final(self).scopes@,
                assign_target(old(self).scopes@, name@),
                name@,
                value,
            )),
            dot_index(name@) >= 0 && r is Ok ==> path_stored(
                old(self).scopes@,
                final(self).scopes@,
                head_of(name@),
                tail_of(name@),
                value,
            ),
    {
        match split_at_dot(name) {
            Some((head, tail)) => self.assign_path(head, tail, value),
            None => self.assign_plain(name, value),
        }
    }

    fn assign_plain(&mut self, name: &str, value: Value) -> (r: Result<(), EvalError>)
        requires
            old(self).wf(),
        ensures
            final(self).wf(),
            final(self).scopes@.len() == old(self).scopes@.len(),
            final(self).database == old(self).database,
            final(self).cursors == old(self).cursors,
            final(self).triggers == old(self).triggers,
            final(self).routines == old(self).routines,
            final(self).steps == old(self).steps,
            assign_refused(old(self).scopes@, name@, value) ==> (r matches Err(EvalError::TypeError(m))
                && m@ == expects_message(name@, owner_type(old(self).scopes@, name@)->0, value)
                && final(self).scopes@ == old(self).scopes@),
            !assign_refused(old(self).scopes@, name@, value) ==> (r is Ok && var_stored(
                old(self).scopes@,
                final(self).scopes@,
                assign_target(old(self).scopes@, name@),
                name@,
                value,
            )),
    {
        let idx = match self.owner_of(name) {
            Some(i) => {
                match get_key(&self.scopes[i].types, name) {
                    Some(t) => {
                        if !t.accept(&value) {
                            return Err(
                                EvalError::TypeError(
                                    concat6(
                                        "variable `",
                                        name,
                                        "` expects ",
                                        t.name(),
                                        ", got ",
                                        value.type_label(),
                                    ),
                                ),
                            );
                        }
                    },
                    None => {},
                }
                i
            },
            None => self.scopes.len() - 1,
        };
        self.put_var(idx, name.to_owned(), value);
        Ok(())
    }

    /// Stores `value` under `name` among the variables of scope `idx`.
    fn put_var(&mut self, idx: usize, name: String, value: Value)
        requires
            old(self).wf(),
            idx < old(self).scopes@.len(),
        ensures
            final(self).wf(),
            final(self).database == old(self).database,
            final(self).cursors == old(self).cursors,
            final(self).triggers == old(self).triggers,
            final(self).routines == old(self).routines,
            final(self).steps == old(self).steps,
            var_stored(old(self).scopes@, final(self).scopes@, idx as int, name@, value),
    {
        let mut scope = self.scopes.remove(idx);
        let ghost old_scope = scope;
        put_key(&mut scope.vars, name, value);
        proof {
            super::names::lemma_put_key(old_scope.vars@, scope.vars@, name@, value);
        }
        self.scopes.insert(idx, scope);
        proof {
            assert forall|j: int|
                0 <= j < old(self).scopes@.len() && j != idx implies #[trigger] self.scopes@[j] == old(self).scopes@[j] by {}
        }
    }

    fn assign_path(&mut self, head: String, tail: String, value: Value) -> (r: Result<(), EvalError>)
        requires
            old(self).wf(),
        ensures
            final(self).wf(),
            final(self).scopes@.len() == old(self).scopes@.len(),
            final(self).database == old(self).database,
            final(self).cursors == old(self).cursors,
            final(self).triggers == old(self).triggers,
            final(self).routines == old(self).routines,
            final(self).steps == old(self).steps,
            owner_type(old(self).scopes@, head@) matches Some(t) && t != DataType::Record ==> (r matches Err(
                EvalError::TypeError(m),
            ) && m@ == record_expected_message(head@, owner_type(old(self).scopes@, head@)->0) && final(self).scopes@ == old(self).scopes@),
            !(owner_type(old(self).scopes@, head@) matches Some(t) && t != DataType::Record) ==> (r is Ok
                && path_stored(old(self).scopes@, final(self).scopes@, head@, tail@, value)),
    {
        match self.owner_of(head.as_str()) {
            Some(i) => {
                match get_key(&self.scopes[i].types, head.as_str()) {
                    Some(t) => {
                        if *t != DataType::Record {
                            return Err(
                                EvalError::TypeError(
                                    crate::expr::eval::concat4("variable `", head.as_str(), "` expects RECORD, got ", t.name()),
                                ),
                            );
                        }
                    },
                    None => {},
                }
                let current = get_key(&self.scopes[i].vars, head.as_str());
                let mut target = match current {
                    Some(v) => v.clone(),
                    None => Value::Null,
                };
                let ghost old_target = lookup(self.scopes@[i as int].vars, head@);
                proof {
                    lemma_owner_scope(self.scopes@, head@);
                }
                assign_path_value(&mut target, tail.as_str(), value);
                let ghost nv = target;
                let ghost hv = head@;
                self.put_var(i, head, target);
                proof {
                    assert(var_stored(old(self).scopes@, self.scopes@, i as int, hv, nv));
                }
                Ok(())
            },
            None => {
                let mut record = Value::Null;
                assign_path_value(&mut record, tail.as_str(), value);
                let last = self.scopes.len() - 1;
                proof {
                    assert(owner_scope(self.scopes@, head@) < 0);
                    lemma_owner_none(self.scopes@, head@, last as int);
                    lemma_path_assigned_none_is_null(lookup(self.scopes@[last as int].vars, head@), tail@, value, record);
                }
                let ghost nv = record;
                let ghost hv = head@;
                self.put_var(last, head, record);
                proof {
                    assert(var_stored(old(self).scopes@, self.scopes@, last as int, hv, nv));
                }
                Ok(())
            },
        }
    }
}

/// The bounds of `owner_scope`, and that the owner binds the name.
proof fn lemma_owner_scope(scopes: Seq<Scope>, name: Seq<char>)
    ensures
        -1 <= owner_scope(scopes, name) < scopes.len(),
        owner_scope(scopes, name) >= 0 ==> lookup(scopes[owner_scope(scopes, name)].vars, name) is Some,
    decreases scopes.len(),
{
    if scopes.len() > 0 && lookup(scopes.last().vars, name) is None {
        lemma_owner_scope(scopes.drop_last(), name);
    }
}

impl Default for Environment {
    /// A fresh environment (see `Environment::new`).
    fn default() -> (r: Environment)
        ensures
            r.wf(),
            r.scopes@.len() == 1,
            r.scopes@[0].vars@.len() == 0,
            r.database.committed().len() == 0,
            !r.database.in_transaction(),
            r.steps == STEP_BUDGET,
    {
        Environment::new()
    }
}

/// When no scope binds `name`, in particular scope `i` does not.
proof fn lemma_owner_none(scopes: Seq<Scope>, name: Seq<char>, i: int)
    requires
        owner_scope(scopes, name) < 0,
        0 <= i < scopes.len(),
    ensures
        lookup(scopes[i].vars, name) is None,
    decreases scopes.len(),
{
    if i < scopes.len() - 1 {
        lemma_owner_none(scopes.drop_last(), name, i);
    }
}

/// The value at `path` inside `value` (see `path_value`).
pub fn get_path_value(value: Value, path: &str) -> (r: Option<Value>)
    ensures
        r == path_value(value, path@),
    decreases path@.len(),
{
    match value {
        Value::Record(fields) => {
            match split_at_dot(path) {
                Some((head, tail)) => {
                    proof {
                        lemma_dot_index(path@);
                    }
                    let next = match fields_get(&fields, head.as_str()) {
                        Some(v) => v.clone(),
                        None => Value::Null,
                    };
                    get_path_value(next, tail.as_str())
                },
                None => match fields_get(&fields, path) {
                    Some(v) => Some(v.clone()),
                    None => Some(Value::Null),
                },
            }
        },
        Value::Null => Some(Value::Null),
        _ => None,
    }
}

/// Assigns `value` at `path` inside `target` (see `path_assigned`).
pub fn assign_path_value(target: &mut Value, path: &str, value: Value)
    ensures
        path_assigned(Some(*old(target)), path@, value, *final(target)),
    decreases path@.len(),
{
    let mut fields = match target {
        Value::Record(f) => f.clone(),
        _ => fields_new(),
    };
    let ghost base = field_entries(fields);
    assert(base == record_entries(Some(*old(target))));
    match split_at_dot(path) {
        Some((head, tail)) => {
            proof {
                lemma_dot_index(path@);
            }
            let mut child = match fields_get(&fields, head.as_str()) {
                Some(v) => v.clone(),
                None => Value::Null,
            };
            let ghost old_child = entries_get(base, head@);
            assert(old_child matches Some(c) ==> child == c);
            assign_path_value(&mut child, tail.as_str(), value);
            proof {
                lemma_path_assigned_none_is_null(old_child, tail@, value, child);
            }
            fields_insert(&mut fields, head, child);
            proof {
                crate::expr::fields::lemma_insert_get(base, head@, child, head@);
            }
        },
        None => {
            fields_insert(&mut fields, path.to_owned(), value);
        },
    }
    *target = Value::Record(fields);
}

/// Assigning inside a missing value is assigning inside NULL.
proof fn lemma_path_assigned_none_is_null(old: Option<Value>, path: Seq<char>, value: Value, new: Value)
    requires
        old is None ==> path_assigned(Some(Value::Null), path, value, new),
        old matches Some(c) ==> path_assigned(Some(c), path, value, new),
    ensures
        path_assigned(old, path, value, new),
    decreases path.len(),
{
    if old is None {
        assert(record_entries(Some(Value::Null)) == record_entries(old));
        if let Value::Record(f) = new {
            if dot_index(path) >= 0 {
                lemma_dot_index(path);
                let base = record_entries(old);
                assert(entries_get(base, head_of(path)) == entries_get(record_entries(Some(Value::Null)), head_of(path)));
            }
        }
    }
}

} // verus!
