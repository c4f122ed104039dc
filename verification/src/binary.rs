//! The loaded program a run works over: its raw bytes, its sections and
//! its symbols, as plain values handed in by whatever read the file.

use vstd::prelude::*;

verus! {

/// A section of the program image.
#[derive(Debug)]
pub struct Section {
    /// The section type's name.
    pub kind: String,
    /// The flag names the section carries; a section whose flags name the
    /// executable bit is decoded.
    pub flags: Vec<String>,
    /// The address the section is mapped at.
    pub address: u64,
    /// The offset of the section's bytes from the start of the file.
    pub offset: u64,
    /// The size of the section in bytes.
    pub size: u64,
    /// The section's alignment.
    pub alignment: u64,
}

/// One definition of a symbol.
#[derive(Debug)]
pub struct Symbol {
    /// The address the symbol points at.
    pub address: u64,
    /// The size of the symbol's object in bytes.
    pub size: u64,
    /// The symbol type's name.
    pub kind: String,
    /// The flag names the symbol carries.
    pub flags: Vec<String>,
    /// The name of the section holding the symbol.
    pub section: String,
}

/// A function symbol's place in the flattened decode tables: its section,
/// its byte range, and the index ranges of its operation and instruction
/// records.
#[derive(Debug)]
pub struct FunctionSymbol {
    pub section: String,
    pub address: usize,
    pub size: usize,
    pub pcode_index: usize,
    pub pcode_count: usize,
    pub instruction_index: usize,
    pub instruction_count: usize,
}

/// A symbol-table row: where a named function lives.
#[derive(Debug)]
pub struct SymbolInfo {
    pub address: u64,
    pub section: String,
    pub size: u64,
    pub flags: String,
}

/// A loaded program: bytes, sections by name, and symbol definitions by
/// name.
#[derive(Debug)]
pub struct Binary {
    pub bytes: Vec<u8>,
    pub sections: Vec<(String, Section)>,
    pub symbols: Vec<(String, Vec<Symbol>)>,
}

/// The first section of that name.
pub open spec fn lookup_section(table: Seq<(String, Section)>, name: Seq<char>) -> Option<int>
    decreases table.len(),
{
    if table.len() == 0 {
        None
    } else if table[0].0@ == name {
        Some(0int)
    } else {
        match lookup_section(table.skip(1), name) {
            Some(i) => Some(i + 1),
            None => None,
        }
    }
}

/// The first symbol list of that name.
pub open spec fn lookup_symbols(table: Seq<(String, Vec<Symbol>)>, name: Seq<char>) -> Option<int>
    decreases table.len(),
{
    if table.len() == 0 {
        None
    } else if table[0].0@ == name {
        Some(0int)
    } else {
        match lookup_symbols(table.skip(1), name) {
            Some(i) => Some(i + 1),
            None => None,
        }
    }
}

impl Binary {
    /// The index of the first section of that name.
    pub fn find_section(&self, name: &String) -> (r: Option<usize>)
        ensures
            match r {
                Some(i) => i < self.sections@.len() && self.sections@[i as int].0@ == name@
                    && lookup_section(self.sections@, name@) == Some(i as int),
                None => lookup_section(self.sections@, name@) is None,
            },
    {
        let n = self.sections.len();
        let mut i: usize = 0;
        proof {
            assert(self.sections@.skip(0) =~= self.sections@);
        }
        while i < n
            invariant
                0 <= i <= n,
                n == self.sections@.len(),
                match lookup_section(self.sections@.skip(i as int), name@) {
                    Some(j) => lookup_section(self.sections@, name@) == Some(j + i),
                    None => lookup_section(self.sections@, name@) is None,
                },
            decreases n - i,
        {
            proof {
                assert(self.sections@.skip(i as int).skip(1) =~= self.sections@.skip(i + 1));
            }
            if self.sections[i].0.eq(name) {
                return Some(i);
            }
            i = i + 1;
        }
        None
    }

    /// The index of the first symbol list of that name.
    pub fn find_symbols(&self, name: &String) -> (r: Option<usize>)
        ensures
            match r {
                Some(i) => i < self.symbols@.len() && self.symbols@[i as int].0@ == name@
                    && lookup_symbols(self.symbols@, name@) == Some(i as int),
                None => lookup_symbols(self.symbols@, name@) is None,
            },
    {
        let n = self.symbols.len();
        let mut i: usize = 0;
        proof {
            assert(self.symbols@.skip(0) =~= self.symbols@);
        }
        while i < n
            invariant
                0 <= i <= n,
                n == self.symbols@.len(),
                match lookup_symbols(self.symbols@.skip(i as int), name@) {
                    Some(j) => lookup_symbols(self.symbols@, name@) == Some(j + i),
                    None => lookup_symbols(self.symbols@, name@) is None,
                },
            decreases n - i,
        {
            proof {
                assert(self.symbols@.skip(i as int).skip(1) =~= self.symbols@.skip(i + 1));
            }
            if self.symbols[i].0.eq(name) {
                return Some(i);
            }
            i = i + 1;
        }
        None
    }
}

} // verus!
