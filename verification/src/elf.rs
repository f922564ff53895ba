//! Plain-value records read out of an ELF image.
//!
//! The object-file reader in the front-end parses each loaded image and hands
//! these records over; everything computed from them — binding priority,
//! eligibility, segment spans — is decided here.

use vstd::prelude::*;

verus! {

/// The symbol-type nibble marking a procedure (`STT_FUNC`).
pub const SYMBOL_TYPE_FUNC: u8 = 2;

/// The program-header type of a loadable segment (`PT_LOAD`).
pub const SEGMENT_TYPE_LOAD: u32 = 1;

/// The binding of a symbol-table entry, ordered by how strongly a name
/// at a shared address is preferred: weak over global, global over local,
/// local over anything else.
#[derive(Clone, Copy, PartialEq, Eq, Structural, Debug)]
pub enum Bind {
    /// Any binding other than local, global or weak.
    Other,
    /// A locally bound symbol (`STB_LOCAL`).
    Local,
    /// A globally bound symbol (`STB_GLOBAL`).
    Global,
    /// A weakly bound symbol (`STB_WEAK`).
    Weak,
}

/// The preference rank of a binding; a larger rank wins.
pub open spec fn spec_bind_rank(b: Bind) -> int {
    match b {
        Bind::Other => 0,
        Bind::Local => 1,
        Bind::Global => 2,
        Bind::Weak => 3,
    }
}

/// The binding encoded in the high nibble of an `st_info` byte.
pub open spec fn spec_bind_of(info: u8) -> Bind {
    if info >> 4 == 2 {
        Bind::Weak
    } else if info >> 4 == 1 {
        Bind::Global
    } else if info >> 4 == 0 {
        Bind::Local
    } else {
        Bind::Other
    }
}

/// One entry of an image's symbol table, reduced to the fields the
/// symbolicator reads: the raw (still mangled) name, the `st_info` byte,
/// and the link-time address and size.
pub struct Symbol {
    /// The raw symbol name, as stored in the string table.
    pub name: Vec<u8>,
    /// The `st_info` byte holding the binding and type nibbles.
    pub info: u8,
    /// The link-time address (`st_value`).
    pub value: u64,
    /// The size in bytes (`st_size`).
    pub size: u64,
}

impl Symbol {
    /// Builds a symbol record from its raw fields.
    pub fn new(name: Vec<u8>, info: u8, value: u64, size: u64) -> (r: Symbol)
        ensures
            r.name == name,
            r.info == info,
            r.value == value,
            r.size == size,
    {
        Symbol { name, info, value, size }
    }

    /// Returns the link-time address of the symbol.
    pub fn value(&self) -> (r: u64)
        ensures
            r == self.value,
    {
        self.value
    }

    /// Returns the size of the symbol in bytes.
    pub fn size(&self) -> (r: u64)
        ensures
            r == self.size,
    {
        self.size
    }

    /// Returns the binding encoded in the record's `st_info` byte.
    pub fn bind(&self) -> (r: Bind)
        ensures
            r == spec_bind_of(self.info),
    {
        let nibble = self.info >> 4;
        if nibble == 2 {
            Bind::Weak
        } else if nibble == 1 {
            Bind::Global
        } else if nibble == 0 {
            Bind::Local
        } else {
            Bind::Other
        }
    }

    /// Whether the record marks a procedure (`STT_FUNC` in the low nibble).
    pub open spec fn spec_is_function(&self) -> bool {
        self.info & 0x0f == SYMBOL_TYPE_FUNC
    }

    /// Returns whether the record marks a procedure.
    pub fn is_function(&self) -> (r: bool)
        ensures
            r == self.spec_is_function(),
    {
        self.info & 0x0f == SYMBOL_TYPE_FUNC
    }

    /// Whether the record takes part in symbolication: a procedure with a
    /// nonzero address and a nonzero size.
    pub open spec fn spec_eligible(&self) -> bool {
        &&& self.spec_is_function()
        &&& self.value != 0
        &&& self.size != 0
    }

    /// Returns whether the record takes part in symbolication.
    pub fn eligible(&self) -> (r: bool)
        ensures
            r == self.spec_eligible(),
    {
        self.is_function() && self.value != 0 && self.size != 0
    }
}

/// Whether `a` is preferred over `b` as the name of a shared start address:
/// the stronger binding wins, and on equal bindings the shorter raw name
/// wins.  This keeps `close` ahead of `__GI___close`.
pub open spec fn spec_preferred(a: &Symbol, b: &Symbol) -> bool {
    ||| spec_bind_rank(spec_bind_of(a.info)) > spec_bind_rank(spec_bind_of(b.info))
    ||| (spec_bind_rank(spec_bind_of(a.info)) == spec_bind_rank(spec_bind_of(b.info))
        && a.name@.len() < b.name@.len())
}

/// Returns whether `a` is preferred over `b` for a shared start address.
pub fn preferred(a: &Symbol, b: &Symbol) -> (r: bool)
    ensures
        r == spec_preferred(a, b),
{
    let ra = bind_rank(a.bind());
    let rb = bind_rank(b.bind());
    ra > rb || (ra == rb && a.name.len() < b.name.len())
}

/// Returns the preference rank of a binding.
pub fn bind_rank(b: Bind) -> (r: u8)
    ensures
        r as int == spec_bind_rank(b),
{
    match b {
        Bind::Other => 0,
        Bind::Local => 1,
        Bind::Global => 2,
        Bind::Weak => 3,
    }
}

/// Picks the symbol table symbolication reads: the full table whenever it
/// has any entry — it is the more detailed one — and the dynamic table
/// only for fully stripped images.
pub fn richer_table(symtab: Vec<Symbol>, dynsyms: Vec<Symbol>) -> (r: Vec<Symbol>)
    ensures
        symtab@.len() > 0 ==> r == symtab,
        symtab@.len() == 0 ==> r == dynsyms,
{
    if symtab.len() > 0 {
        symtab
    } else {
        dynsyms
    }
}

/// One program header, reduced to the fields that decide the loaded
/// segments: the type, the link-time virtual address, and the size of the
/// segment in memory.
pub struct ProgramHeader {
    /// The segment type (`p_type`); only loadable segments contribute.
    pub p_type: u32,
    /// The link-time virtual address (`p_vaddr`).
    pub p_vaddr: u64,
    /// The size of the segment in memory (`p_memsz`).
    pub p_memsz: u64,
}

impl ProgramHeader {
    /// Builds a program-header record from its raw fields.
    pub fn new(p_type: u32, p_vaddr: u64, p_memsz: u64) -> (r: ProgramHeader)
        ensures
            r.p_type == p_type,
            r.p_vaddr == p_vaddr,
            r.p_memsz == p_memsz,
    {
        ProgramHeader { p_type, p_vaddr, p_memsz }
    }

    /// Whether the header describes a loadable segment.
    pub open spec fn spec_is_load(&self) -> bool {
        self.p_type == SEGMENT_TYPE_LOAD
    }

    /// Returns whether the header describes a loadable segment.
    pub fn is_load(&self) -> (r: bool)
        ensures
            r == self.spec_is_load(),
    {
        self.p_type == SEGMENT_TYPE_LOAD
    }
}

} // verus!
