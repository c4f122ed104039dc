//! The shape of the object-file report a loader hands over: file summary,
//! sections and symbols, as plain values.  Front ends deserialize into
//! their own mirror of these records and convert.

use vstd::prelude::*;

verus! {

/// The report's header: what file was read and in what format.
#[derive(Debug)]
pub struct FileSummary {
    pub file: String,
    pub format: String,
    pub arch: String,
    pub address_size: String,
    pub load_name: String,
}

/// A name paired with the raw value it stands for.
#[derive(Debug)]
pub struct NameValue {
    pub name: String,
    pub value: u64,
}

/// A set of flags, each a named value.
#[derive(Debug)]
pub struct Flags {
    pub flags: Vec<NameValue>,
}

/// A section entry of the report.
#[derive(Debug)]
pub struct Section {
    pub name: NameValue,
    pub kind: NameValue,
    pub flags: Flags,
    pub address: u64,
    pub offset: u64,
    pub size: u64,
    pub address_alignment: u64,
}

/// A symbol entry of the report.
#[derive(Debug)]
pub struct Symbol {
    pub name: NameValue,
    pub value: u64,
    pub size: u64,
    pub binding: NameValue,
    pub kind: NameValue,
    pub section: NameValue,
    pub other: Flags,
}

/// A section entry's wrapper object.
#[derive(Debug)]
pub struct SectionItem {
    pub section: Section,
}

/// A symbol entry's wrapper object.
#[derive(Debug)]
pub struct SymbolItem {
    pub symbol: Symbol,
}

/// One whole report.
#[derive(Debug)]
pub struct Readobj {
    pub file_summary: FileSummary,
    pub sections: Vec<SectionItem>,
    pub symbols: Vec<SymbolItem>,
}

} // verus!
