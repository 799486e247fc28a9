use std::collections::HashMap;

use vstd::prelude::*;

use crate::errors::{DecodeError, StatementKind};

verus! {

broadcast use vstd::std_specs::hash::group_hash_axioms;

/// A format expression as registered by the macros: its text, whether a
/// newline is appended, and the arguments it expects to be written.
#[derive(Debug, Clone, PartialEq)]
pub struct StoredFormatExpression {
    pub expression: String,
    pub append_newline: bool,
    pub expected_positional_arg_count: usize,
    pub expected_named_args: Vec<String>,
}

/// The shape of a struct, or of one enum variant.
#[derive(Debug, Clone, PartialEq)]
pub enum StructVariant {
    Unit,
    Tuple(u8),
    Named(Vec<String>),
}

#[derive(Debug, Clone, PartialEq)]
pub enum TypeStructureVariant {
    Struct(StructVariant),
    Enum(Vec<(String, StructVariant)>),
}

/// The registered structure of a type that derives its formatting.
#[derive(Debug, Clone, PartialEq)]
pub struct TypeStructure {
    pub name: String,
    pub variant: TypeStructureVariant,
}

/// What a write id refers to.
#[derive(Debug, Clone, PartialEq)]
pub enum WriteStatement {
    FormatExpression(StoredFormatExpression),
    TypeStructure(TypeStructure),
}

/// Where a print statement stands in its source.
#[derive(Debug, Clone, PartialEq)]
pub struct Location {
    pub file: String,
    pub line: u32,
}

/// A registered print statement.
#[derive(Debug, Clone, PartialEq)]
pub struct PrintStatement {
    pub location: Location,
    pub format_expression: StoredFormatExpression,
}

/// A registered crate.
#[derive(Debug, Clone, PartialEq)]
pub struct CrateRecord {
    pub name: String,
}

/// The key under which statement `id` of crate `crate_id` is kept.
pub open spec fn statement_key(crate_id: u16, id: u16) -> u32 {
    (crate_id as int * 65536 + id as int) as u32
}

/// The number of arguments a format expression expects.
pub open spec fn expected_arg_count(expression: StoredFormatExpression) -> nat {
    expression.expected_positional_arg_count as nat + expression.expected_named_args@.len()
}

/// The error for statement `id` of crate `crate_id` of the given table that
/// is not registered: it names the crate where the crate is registered.
pub open spec fn missing_statement_error(st: StoresView, kind: StatementKind, crate_id: u16, id: u16) -> DecodeError {
    if st.crates.contains_key(crate_id) {
        DecodeError::UnknownStatement(id, kind, st.crates[crate_id].name)
    } else {
        DecodeError::UnknownCrate(crate_id)
    }
}

/// The registered crates and statements that decoding looks up.
pub struct Stores {
    crates: HashMap<u16, CrateRecord>,
    print_statements: HashMap<u32, PrintStatement>,
    write_statements: HashMap<u32, WriteStatement>,
}

/// The contents of the stores.
pub struct StoresView {
    pub crates: Map<u16, CrateRecord>,
    pub prints: Map<u32, PrintStatement>,
    pub writes: Map<u32, WriteStatement>,
}

impl View for Stores {
    type V = StoresView;

    closed spec fn view(&self) -> StoresView {
        StoresView {
            crates: self.crates@,
            prints: self.print_statements@,
            writes: self.write_statements@,
        }
    }
}

impl Stores {
    /// Empty stores.
    pub fn new() -> (stores: Stores)
        ensures
            stores@.crates == Map::<u16, CrateRecord>::empty(),
            stores@.prints == Map::<u32, PrintStatement>::empty(),
            stores@.writes == Map::<u32, WriteStatement>::empty(),
    {
        Stores {
            crates: HashMap::new(),
            print_statements: HashMap::new(),
            write_statements: HashMap::new(),
        }
    }

    /// Keeps a crate record under its id; a record already kept is not replaced.
    pub fn save_crate(&mut self, id: u16, record: CrateRecord)
        ensures
            final(self)@.crates == (if old(self)@.crates.contains_key(id) {
                old(self)@.crates
            } else {
                old(self)@.crates.insert(id, record)
            }),
            final(self)@.prints == old(self)@.prints,
            final(self)@.writes == old(self)@.writes,
    {
        if !self.crates.contains_key(&id) {
            self.crates.insert(id, record);
        }
    }

    /// Keeps a print statement; one already kept under the same ids is not replaced.
    pub fn save_print_statement(&mut self, crate_id: u16, id: u16, statement: PrintStatement)
        ensures
            final(self)@.prints == (if old(self)@.prints.contains_key(statement_key(crate_id, id)) {
                old(self)@.prints
            } else {
                old(self)@.prints.insert(statement_key(crate_id, id), statement)
            }),
            final(self)@.crates == old(self)@.crates,
            final(self)@.writes == old(self)@.writes,
    {
        let key = make_statement_key(crate_id, id);
        if !self.print_statements.contains_key(&key) {
            self.print_statements.insert(key, statement);
        }
    }

    /// Keeps a write statement; one already kept under the same ids is not replaced.
    pub fn save_write_statement(&mut self, crate_id: u16, id: u16, statement: WriteStatement)
        ensures
            final(self)@.writes == (if old(self)@.writes.contains_key(statement_key(crate_id, id)) {
                old(self)@.writes
            } else {
                old(self)@.writes.insert(statement_key(crate_id, id), statement)
            }),
            final(self)@.crates == old(self)@.crates,
            final(self)@.prints == old(self)@.prints,
    {
        let key = make_statement_key(crate_id, id);
        if !self.write_statements.contains_key(&key) {
            self.write_statements.insert(key, statement);
        }
    }

    /// Makes sure a crate record is kept under `id`: one already kept stays;
    /// otherwise the record fetched for it from the crate registry is kept,
    /// and where none was found the crate is unknown.
    pub fn get_or_insert_crate(&mut self, id: u16, fetched: Option<CrateRecord>) -> (r: Result<(), DecodeError>)
        ensures
            old(self)@.crates.contains_key(id) ==> r is Ok && final(self)@ == old(self)@,
            !old(self)@.crates.contains_key(id) ==> match fetched {
                Some(record) => r is Ok && final(self)@.crates == old(self)@.crates.insert(id, record)
                    && final(self)@.prints == old(self)@.prints && final(self)@.writes == old(self)@.writes,
                None => r == Err::<(), DecodeError>(DecodeError::UnknownCrate(id)) && final(self)@
                    == old(self)@,
            },
    {
        if self.crates.contains_key(&id) {
            return Ok(());
        }
        match fetched {
            Some(record) => {
                self.crates.insert(id, record);
                Ok(())
            },
            None => Err(DecodeError::UnknownCrate(id)),
        }
    }

    /// Makes sure a print statement is kept under the given ids: one already
    /// kept stays (and `fetched` is not looked at, so a caller looks the
    /// statement up in the crate's registry only after `get_print_statement`
    /// found nothing); otherwise the statement fetched for it is kept, and
    /// where none was found the error names the statement, its table and its
    /// crate.
    pub fn get_or_insert_print_statement(
        &mut self,
        crate_id: u16,
        id: u16,
        fetched: Option<PrintStatement>,
    ) -> (r: Result<(), DecodeError>)
        ensures
            old(self)@.prints.contains_key(statement_key(crate_id, id)) ==> r is Ok && final(self)@
                == old(self)@,
            !old(self)@.prints.contains_key(statement_key(crate_id, id)) ==> match fetched {
                Some(statement) => r is Ok && final(self)@.prints == old(self)@.prints.insert(
                    statement_key(crate_id, id),
                    statement,
                ) && final(self)@.crates == old(self)@.crates && final(self)@.writes == old(
                    self,
                )@.writes,
                None => r == Err::<(), DecodeError>(missing_statement_error(old(self)@, StatementKind::Print, crate_id, id))
                    && final(self)@ == old(self)@,
            },
    {
        let key = make_statement_key(crate_id, id);
        if self.print_statements.contains_key(&key) {
            return Ok(());
        }
        match fetched {
            Some(statement) => {
                self.print_statements.insert(key, statement);
                Ok(())
            },
            None => match self.crates.get(&crate_id) {
                Some(record) => Err(DecodeError::UnknownStatement(id, StatementKind::Print, record.name.clone())),
                None => Err(DecodeError::UnknownCrate(crate_id)),
            },
        }
    }

    /// Makes sure a write statement is kept under the given ids, as
    /// `get_or_insert_print_statement` does for print statements.
    pub fn get_or_insert_write_statement(
        &mut self,
        crate_id: u16,
        id: u16,
        fetched: Option<WriteStatement>,
    ) -> (r: Result<(), DecodeError>)
        ensures
            old(self)@.writes.contains_key(statement_key(crate_id, id)) ==> r is Ok && final(self)@
                == old(self)@,
            !old(self)@.writes.contains_key(statement_key(crate_id, id)) ==> match fetched {
                Some(statement) => r is Ok && final(self)@.writes == old(self)@.writes.insert(
                    statement_key(crate_id, id),
                    statement,
                ) && final(self)@.crates == old(self)@.crates && final(self)@.prints == old(
                    self,
                )@.prints,
                None => r == Err::<(), DecodeError>(missing_statement_error(old(self)@, StatementKind::Write, crate_id, id))
                    && final(self)@ == old(self)@,
            },
    {
        let key = make_statement_key(crate_id, id);
        if self.write_statements.contains_key(&key) {
            return Ok(());
        }
        match fetched {
            Some(statement) => {
                self.write_statements.insert(key, statement);
                Ok(())
            },
            None => match self.crates.get(&crate_id) {
                Some(record) => Err(DecodeError::UnknownStatement(id, StatementKind::Write, record.name.clone())),
                None => Err(DecodeError::UnknownCrate(crate_id)),
            },
        }
    }

    /// The crate record kept under an id.
    pub fn get_crate(&self, id: u16) -> (record: Option<&CrateRecord>)
        ensures
            match record {
                Some(r) => self@.crates.contains_key(id) && *r == self@.crates[id],
                None => !self@.crates.contains_key(id),
            },
    {
        self.crates.get(&id)
    }

    /// The print statement kept under the given ids.
    pub fn get_print_statement(&self, crate_id: u16, id: u16) -> (statement: Option<&PrintStatement>)
        ensures
            match statement {
                Some(s) => self@.prints.contains_key(statement_key(crate_id, id)) && *s
                    == self@.prints[statement_key(crate_id, id)],
                None => !self@.prints.contains_key(statement_key(crate_id, id)),
            },
    {
        let key = make_statement_key(crate_id, id);
        self.print_statements.get(&key)
    }

    /// The write statement kept under the given ids.
    pub fn get_write_statement(&self, crate_id: u16, id: u16) -> (statement: Option<&WriteStatement>)
        ensures
            match statement {
                Some(s) => self@.writes.contains_key(statement_key(crate_id, id)) && *s
                    == self@.writes[statement_key(crate_id, id)],
                None => !self@.writes.contains_key(statement_key(crate_id, id)),
            },
    {
        let key = make_statement_key(crate_id, id);
        self.write_statements.get(&key)
    }
}

/// The key under which statement `id` of crate `crate_id` is kept.
pub fn make_statement_key(crate_id: u16, id: u16) -> (key: u32)
    ensures
        key == statement_key(crate_id, id),
{
    (crate_id as u32) * 65536 + (id as u32)
}

/// Distinct ids have distinct keys.
pub proof fn lemma_statement_key_injective(c1: u16, i1: u16, c2: u16, i2: u16)
    ensures
        statement_key(c1, i1) == statement_key(c2, i2) ==> c1 == c2 && i1 == i2,
{
}

} // verus!
