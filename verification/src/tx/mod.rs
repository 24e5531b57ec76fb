use vstd::prelude::*;

use crate::db::catalog::{clone_catalog, Catalog};
use crate::db::table::TableView;

verus! {

/// The working copy of the tables while a transaction is open.
#[derive(Debug)]
pub struct TransactionState {
    pub working_tables: Option<Catalog>,
}

impl TransactionState {
    /// No transaction open.
    pub fn new() -> (r: TransactionState)
        ensures
            r.working_tables is None,
    {
        TransactionState { working_tables: None }
    }

    /// A transaction is open.
    pub fn is_active(&self) -> (r: bool)
        ensures
            r == self.working_tables is Some,
    {
        self.working_tables.is_some()
    }

    /// Opens a transaction on a snapshot of `tables`; no effect when one is open.
    pub fn begin(&mut self, tables: Catalog)
        ensures
            old(self).working_tables is Some ==> *final(self) == *old(self),
            old(self).working_tables is None ==> final(self).working_tables == Some(tables),
    {
        if self.working_tables.is_none() {
            self.working_tables = Some(tables);
        }
    }

    /// Makes the working copy the committed tables and closes the
    /// transaction; `false`, with nothing changed, when none is open.
    pub fn commit_into(&mut self, tables: &mut Catalog) -> (r: bool)
        ensures
            r == old(self).working_tables is Some,
            final(self).working_tables is None,
            match old(self).working_tables {
                Some(w) => *final(tables) == w,
                None => *final(tables) == *old(tables),
            },
    {
        match self.working_tables.take() {
            Some(working) => {
                *tables = working;
                true
            },
            None => false,
        }
    }

    /// Discards the working copy; `false` when no transaction was open.
    pub fn rollback(&mut self) -> (r: bool)
        ensures
            r == old(self).working_tables is Some,
            final(self).working_tables is None,
    {
        self.working_tables.take().is_some()
    }

    /// The tables that reads see: the working copy, or else `tables`.
    pub fn visible_tables<'a>(&'a self, tables: &'a Catalog) -> (r: &'a Catalog)
        ensures
            r == (match self.working_tables {
                Some(w) => &w,
                None => tables,
            }),
    {
        match &self.working_tables {
            Some(w) => w,
            None => tables,
        }
    }
}

} // verus!
