//! Model of the traced binary: function names, symbols, PLT ranges and the
//! address maps built from them.
use vstd::prelude::*;

use crate::error::Error;
use crate::strutil;

verus! {

/// Name of a function symbol that exists in the program, in its raw
/// (possibly mangled) form.
pub struct FunctionName(pub String);

impl View for FunctionName {
    type V = Seq<char>;

    open spec fn view(&self) -> Seq<char> {
        self.0@
    }
}

impl Clone for FunctionName {
    fn clone(&self) -> (r: Self)
        ensures
            r == *self,
    {
        FunctionName(self.0.clone())
    }
}

impl FunctionName {
    /// Make a name from its raw text.
    pub fn new(raw: String) -> (r: FunctionName)
        ensures
            r@ == raw@,
    {
        FunctionName(raw)
    }

    /// The raw text of the name.
    pub fn as_str(&self) -> (r: &str)
        ensures
            r@ == self@,
    {
        self.0.as_str()
    }
}

/// What `cpp_demangle` returns for a mangled name: a function of the name
/// alone; `None` where the name is not a mangled C++ symbol.
pub uninterp spec fn demangled_of(s: Seq<char>) -> Option<Seq<char>>;

/// Relies on `cpp_demangle::Symbol::new` and `Symbol::demangle`: the
/// demangled form of a C++ symbol name, which depends on the name alone.
#[verifier::external_body]
fn demangle_name(name: &str) -> (r: Option<String>)
    ensures
        demangled_of(name@) == (match r {
            Some(d) => Some(d@),
            None => None,
        }),
{
    match cpp_demangle::Symbol::new(name.as_bytes()) {
        Ok(sym) => match sym.demangle() {
            Ok(d) => Some(d),
            Err(_) => None,
        },
        Err(_) => None,
    }
}

impl FunctionName {
    /// The demangled display form of the name, or the raw name where it does
    /// not demangle.
    pub fn pretty_print(&self) -> (r: String)
        ensures
            r@ == (match demangled_of(self@) {
                Some(d) => d,
                None => self@,
            }),
    {
        match demangle_name(self.0.as_str()) {
            Some(d) => d,
            None => self.0.clone(),
        }
    }
}

/// Ghost mirror of `SymbolInfo`.
pub struct SSymbolInfo {
    pub name: Seq<char>,
    pub demangled: Option<Seq<char>>,
    pub section_index: Option<u64>,
    pub address: u64,
    pub size: u64,
}

/// Per-symbol record. An address of zero denotes an undefined, dynamically
/// linked symbol.
pub struct SymbolInfo {
    pub name: FunctionName,
    demangled_name: Option<String>,
    section_index: Option<u64>,
    address: u64,
    size: u64,
}

impl View for SymbolInfo {
    type V = SSymbolInfo;

    closed spec fn view(&self) -> SSymbolInfo {
        SSymbolInfo {
            name: self.name@,
            demangled: match self.demangled_name {
                Some(d) => Some(d@),
                None => None,
            },
            section_index: self.section_index,
            address: self.address,
            size: self.size,
        }
    }
}

impl Clone for SymbolInfo {
    fn clone(&self) -> (r: Self)
        ensures
            r@ == self@,
    {
        SymbolInfo {
            name: self.name.clone(),
            demangled_name: match &self.demangled_name {
                Some(d) => Some(d.clone()),
                None => None,
            },
            section_index: self.section_index,
            address: self.address,
            size: self.size,
        }
    }
}

/// The name a symbol is shown and searched under.
pub open spec fn s_display(sym: SSymbolInfo) -> Seq<char> {
    match sym.demangled {
        Some(d) => d,
        None => sym.name,
    }
}

impl SymbolInfo {
    /// Make a symbol record, demangling the name for display.
    pub fn new(name: String, section_index: Option<u64>, address: u64, size: u64) -> (r:
        SymbolInfo)
        ensures
            r@ == (SSymbolInfo {
                name: name@,
                demangled: demangled_of(name@),
                section_index,
                address,
                size,
            }),
    {
        let demangled_name = demangle_name(name.as_str());
        SymbolInfo { name: FunctionName(name), demangled_name, section_index, address, size }
    }

    /// The name this symbol is shown and searched under: the demangled form
    /// where one exists, the raw name otherwise.
    pub fn display_name(&self) -> (r: &str)
        ensures
            r@ == s_display(self@),
    {
        match &self.demangled_name {
            Some(d) => d.as_str(),
            None => self.name.0.as_str(),
        }
    }

    /// The symbol's address; zero for a dynamically linked symbol.
    pub fn address(&self) -> (r: u64)
        ensures
            r == self@.address,
    {
        self.address
    }

    /// The symbol's size in bytes.
    pub fn size(&self) -> (r: u64)
        ensures
            r == self@.size,
    {
        self.size
    }

    /// The index of the section holding this symbol, if any.
    pub fn section_index(&self) -> (r: Option<u64>)
        ensures
            r == self@.section_index,
    {
        self.section_index
    }
}

/// A half-open address range.
#[derive(Clone, Copy, PartialEq, Eq, Structural, Debug)]
pub struct AddressRange {
    pub start: u64,
    pub end: u64,
}

/// A function symbol as read from the binary's symbol table.
pub struct RawSymbol {
    pub name: String,
    pub section_index: Option<u64>,
    pub address: u64,
    pub size: u64,
}

/// Ghost mirror of `RawSymbol`.
pub struct SRawSymbol {
    pub name: Seq<char>,
    pub section_index: Option<u64>,
    pub address: u64,
    pub size: u64,
}

impl View for RawSymbol {
    type V = SRawSymbol;

    open spec fn view(&self) -> SRawSymbol {
        SRawSymbol {
            name: self.name@,
            section_index: self.section_index,
            address: self.address,
            size: self.size,
        }
    }
}

/// A text-kind dynamic relocation: the address it patches and the symbol it
/// resolves to.
pub struct RawRelocation {
    pub address: u64,
    pub name: String,
}

impl View for RawRelocation {
    type V = (u64, Seq<char>);

    open spec fn view(&self) -> (u64, Seq<char>) {
        (self.address, self.name@)
    }
}

/// A `JMP` found in a PLT section: its own address and its computed
/// absolute target.
#[derive(Clone, Copy, PartialEq, Eq, Structural, Debug)]
pub struct RawJump {
    pub ip: u64,
    pub target: u64,
}

/// One resolved PLT entry.
pub struct PltEntry {
    pub address: u64,
    pub name: FunctionName,
}

impl View for PltEntry {
    type V = (u64, Seq<char>);

    open spec fn view(&self) -> (u64, Seq<char>) {
        (self.address, self.name@)
    }
}

/// First position of the `@@` version marker in a symbol name.
pub open spec fn s_vsplit(s: Seq<char>) -> Option<int>
    decreases s.len(),
{
    if s.len() < 2 {
        None
    } else if s[0] == '@' && s[1] == '@' {
        Some(0)
    } else {
        match s_vsplit(s.drop_first()) {
            None => None,
            Some(i) => Some(i + 1),
        }
    }
}

/// The version map drawn from the symbol names: each name carrying `@@`
/// binds its unversioned prefix, later names overriding earlier ones.
pub open spec fn s_versioned_pairs(syms: Seq<SRawSymbol>) -> Seq<(Seq<char>, Seq<char>)>
    decreases syms.len(),
{
    if syms.len() == 0 {
        Seq::empty()
    } else {
        let prev = s_versioned_pairs(syms.drop_last());
        match s_vsplit(syms.last().name) {
            None => prev,
            Some(i) => prev.push((syms.last().name.take(i), syms.last().name)),
        }
    }
}

/// The last binding of `base`, if any: later entries override earlier ones.
pub open spec fn s_pairs_lookup(vs: Seq<(Seq<char>, Seq<char>)>, base: Seq<char>) -> Option<
    Seq<char>,
>
    decreases vs.len(),
{
    if vs.len() == 0 {
        None
    } else if vs.last().0 == base {
        Some(vs.last().1)
    } else {
        s_pairs_lookup(vs.drop_last(), base)
    }
}

/// The symbol record built from a raw symbol.
pub open spec fn s_raw_sym(r: SRawSymbol) -> SSymbolInfo {
    SSymbolInfo {
        name: r.name,
        demangled: demangled_of(r.name),
        section_index: r.section_index,
        address: r.address,
        size: r.size,
    }
}

/// Some symbol carries this name.
pub open spec fn s_has_name(syms: Seq<SSymbolInfo>, name: Seq<char>) -> bool {
    exists|k: int| 0 <= k < syms.len() && (#[trigger] syms[k]).name == name
}

/// The symbols with duplicate names dropped: the first record of each name
/// wins, in input order.
pub open spec fn s_dedupe(syms: Seq<SSymbolInfo>) -> Seq<SSymbolInfo>
    decreases syms.len(),
{
    if syms.len() == 0 {
        Seq::empty()
    } else {
        let prev = s_dedupe(syms.drop_last());
        if s_has_name(prev, syms.last().name) {
            prev
        } else {
            prev.push(syms.last())
        }
    }
}

/// The symbol table that `Program` keeps for a list of raw symbols.
pub open spec fn s_symbols_from(raws: Seq<SRawSymbol>) -> Seq<SSymbolInfo> {
    s_dedupe(raws.map_values(|r: SRawSymbol| s_raw_sym(r)))
}

/// The last relocation for `address`, if any.
pub open spec fn s_reloc_lookup(relocs: Seq<(u64, Seq<char>)>, address: u64) -> Option<Seq<char>>
    decreases relocs.len(),
{
    if relocs.len() == 0 {
        None
    } else if relocs.last().0 == address {
        Some(relocs.last().1)
    } else {
        s_reloc_lookup(relocs.drop_last(), address)
    }
}

/// `address` lies in one of the ranges.
pub open spec fn s_in_plt(ranges: Seq<AddressRange>, address: u64) -> bool {
    exists|k: int|
        0 <= k < ranges.len() && (#[trigger] ranges[k]).start <= address && address
            < ranges[k].end
}

/// Some PLT entry is for `ip`.
pub open spec fn s_has_ip(m: Seq<(u64, Seq<char>)>, ip: u64) -> bool {
    exists|k: int| 0 <= k < m.len() && (#[trigger] m[k]).0 == ip
}

/// The name a PLT entry is bound to: the versioned form where the symbol
/// table has one, else the relocation's own name.
pub open spec fn s_plt_name(vs: Seq<(Seq<char>, Seq<char>)>, base: Seq<char>) -> Seq<char> {
    match s_pairs_lookup(vs, base) {
        Some(v) => v,
        None => base,
    }
}

/// The PLT map: every `JMP` inside a PLT range whose target has a text
/// relocation binds its own address to that symbol. Jumps matching no
/// relocation (such as the expected jump to the zeroth PLT entry) are
/// ignored; the first entry for an address wins.
pub open spec fn s_build_plt_map(
    jumps: Seq<RawJump>,
    relocs: Seq<(u64, Seq<char>)>,
    vs: Seq<(Seq<char>, Seq<char>)>,
    ranges: Seq<AddressRange>,
) -> Seq<(u64, Seq<char>)>
    decreases jumps.len(),
{
    if jumps.len() == 0 {
        Seq::empty()
    } else {
        let prev = s_build_plt_map(jumps.drop_last(), relocs, vs, ranges);
        let j = jumps.last();
        if !s_in_plt(ranges, j.ip) {
            prev
        } else {
            match s_reloc_lookup(relocs, j.target) {
                None => prev,
                Some(base) => if s_has_ip(prev, j.ip) {
                    prev
                } else {
                    prev.push((j.ip, s_plt_name(vs, base)))
                },
            }
        }
    }
}

/// Every PLT entry's address lies inside a PLT range, and addresses are
/// unique.
pub proof fn lemma_plt_map_wf(
    jumps: Seq<RawJump>,
    relocs: Seq<(u64, Seq<char>)>,
    vs: Seq<(Seq<char>, Seq<char>)>,
    ranges: Seq<AddressRange>,
)
    ensures
        forall|k: int|
            0 <= k < s_build_plt_map(jumps, relocs, vs, ranges).len() ==> s_in_plt(
                ranges,
                (#[trigger] s_build_plt_map(jumps, relocs, vs, ranges)[k]).0,
            ),
        forall|k1: int, k2: int|
            0 <= k1 < k2 < s_build_plt_map(jumps, relocs, vs, ranges).len() ==> (
            #[trigger] s_build_plt_map(jumps, relocs, vs, ranges)[k1]).0 != (
            #[trigger] s_build_plt_map(jumps, relocs, vs, ranges)[k2]).0,
    decreases jumps.len(),
{
    if jumps.len() == 0 {
    } else {
        lemma_plt_map_wf(jumps.drop_last(), relocs, vs, ranges);
        let prev = s_build_plt_map(jumps.drop_last(), relocs, vs, ranges);
        let m = s_build_plt_map(jumps, relocs, vs, ranges);
        if m.len() == prev.len() + 1 {
            assert(!s_has_ip(prev, jumps.last().ip));
            assert(forall|k: int| 0 <= k < prev.len() ==> m[k] == prev[k]);
        }
    }
}

/// Every deduplicated symbol is one of the input records, and names are
/// unique.
pub proof fn lemma_dedupe_wf(syms: Seq<SSymbolInfo>)
    ensures
        forall|k: int|
            0 <= k < s_dedupe(syms).len() ==> exists|j: int|
                0 <= j < syms.len() && syms[j] == #[trigger] s_dedupe(syms)[k],
        forall|k1: int, k2: int|
            0 <= k1 < k2 < s_dedupe(syms).len() ==> (#[trigger] s_dedupe(syms)[k1]).name != (
            #[trigger] s_dedupe(syms)[k2]).name,
    decreases syms.len(),
{
    if syms.len() == 0 {
    } else {
        lemma_dedupe_wf(syms.drop_last());
        let prev = s_dedupe(syms.drop_last());
        let d = s_dedupe(syms);
        assert(forall|k: int|
            0 <= k < prev.len() ==> exists|j: int|
                0 <= j < syms.drop_last().len() && syms.drop_last()[j] == #[trigger] prev[k]);
        assert forall|k: int| 0 <= k < d.len() implies exists|j: int|
            0 <= j < syms.len() && syms[j] == #[trigger] d[k] by {
            if k < prev.len() {
                let j = choose|j: int|
                    0 <= j < syms.drop_last().len() && syms.drop_last()[j] == prev[k];
                assert(syms[j] == d[k]);
            } else {
                assert(d[k] == syms.last());
                assert(syms[syms.len() - 1] == d[k]);
            }
        }
        if d.len() == prev.len() + 1 {
            assert(!s_has_name(prev, syms.last().name));
            assert(forall|k: int| 0 <= k < prev.len() ==> d[k] == prev[k]);
        }
    }
}

/// Ghost mirror of `Program`.
pub struct SProgram {
    pub file_path: Seq<char>,
    pub symbols: Seq<SSymbolInfo>,
    pub plt_ranges: Seq<AddressRange>,
    pub plt_map: Seq<(u64, Seq<char>)>,
}

impl SProgram {
    /// Symbol names are unique; every PLT entry lies in a PLT range and
    /// addresses are unique; display names come from the demangler.
    pub open spec fn wf(&self) -> bool {
        &&& forall|k1: int, k2: int|
            0 <= k1 < k2 < self.symbols.len() ==> (#[trigger] self.symbols[k1]).name != (
            #[trigger] self.symbols[k2]).name
        &&& forall|k: int|
            0 <= k < self.plt_map.len() ==> s_in_plt(
                self.plt_ranges,
                (#[trigger] self.plt_map[k]).0,
            )
        &&& forall|k1: int, k2: int|
            0 <= k1 < k2 < self.plt_map.len() ==> (#[trigger] self.plt_map[k1]).0 != (
            #[trigger] self.plt_map[k2]).0
        &&& forall|k: int|
            0 <= k < self.symbols.len() ==> (#[trigger] self.symbols[k]).demangled
                == demangled_of(self.symbols[k].name)
    }
}

/// The first symbol carrying `name`.
pub open spec fn s_name_lookup(syms: Seq<SSymbolInfo>, name: Seq<char>) -> Option<SSymbolInfo>
    decreases syms.len(),
{
    if syms.len() == 0 {
        None
    } else if syms[0].name == name {
        Some(syms[0])
    } else {
        s_name_lookup(syms.drop_first(), name)
    }
}

/// The name of the first symbol at nonzero address `address`.
pub open spec fn s_addr_lookup(syms: Seq<SSymbolInfo>, address: u64) -> Option<Seq<char>>
    decreases syms.len(),
{
    if syms.len() == 0 {
        None
    } else if syms[0].address == address && address != 0 {
        Some(syms[0].name)
    } else {
        s_addr_lookup(syms.drop_first(), address)
    }
}

/// The name bound to PLT entry `ip`, if any.
pub open spec fn s_plt_lookup(m: Seq<(u64, Seq<char>)>, ip: u64) -> Option<Seq<char>>
    decreases m.len(),
{
    if m.len() == 0 {
        None
    } else if m[0].0 == ip {
        Some(m[0].1)
    } else {
        s_plt_lookup(m.drop_first(), ip)
    }
}

/// Position of the first symbol whose display name equals the query.
pub open spec fn s_first_exact(syms: Seq<SSymbolInfo>, query: Seq<char>) -> Option<int>
    decreases syms.len(),
{
    if syms.len() == 0 {
        None
    } else if s_display(syms[0]) == query {
        Some(0int)
    } else {
        match s_first_exact(syms.drop_first(), query) {
            None => None,
            Some(i) => Some(i + 1),
        }
    }
}

/// The names of all symbols whose display name contains the query, in
/// symbol order.
pub open spec fn s_substring_matches(syms: Seq<SSymbolInfo>, query: Seq<char>) -> Seq<Seq<char>>
    decreases syms.len(),
{
    if syms.len() == 0 {
        Seq::empty()
    } else {
        let prev = s_substring_matches(syms.drop_last(), query);
        if strutil::spec_contains(s_display(syms.last()), query) {
            prev.push(syms.last().name)
        } else {
            prev
        }
    }
}

/// What `get_matches` answers: the one exactly matching symbol if any
/// exists, otherwise every symbol whose display name contains the query.
pub open spec fn s_matches(syms: Seq<SSymbolInfo>, query: Seq<char>) -> Seq<Seq<char>> {
    match s_first_exact(syms, query) {
        Some(i) => seq![syms[i].name],
        None => s_substring_matches(syms, query),
    }
}

/// The model of the traced binary: its symbols, the PLT address ranges and
/// the PLT entry map built by cross-referencing the PLT's jumps with the
/// dynamic relocations.
pub struct Program {
    /// Only used when printing messages
    pub file_path: String,
    symbols: Vec<SymbolInfo>,
    /// Runtime address ranges of the PLT sections
    dynamic_symbols_ranges: Vec<AddressRange>,
    /// PLT entry address to the function it dispatches to
    dynamic_symbols_map: Vec<PltEntry>,
}

impl View for Program {
    type V = SProgram;

    closed spec fn view(&self) -> SProgram {
        SProgram {
            file_path: self.file_path@,
            symbols: self.symbols@.map_values(|s: SymbolInfo| s@),
            plt_ranges: self.dynamic_symbols_ranges@,
            plt_map: self.dynamic_symbols_map@.map_values(|e: PltEntry| e@),
        }
    }
}

/// Whether `address` falls in one of the ranges.
fn in_ranges(ranges: &Vec<AddressRange>, address: u64) -> (r: bool)
    ensures
        r == s_in_plt(ranges@, address),
{
    let mut k: usize = 0;
    while k < ranges.len()
        invariant
            k <= ranges@.len(),
            forall|j: int|
                0 <= j < k ==> !((#[trigger] ranges@[j]).start <= address && address
                    < ranges@[j].end),
        decreases ranges@.len() - k,
    {
        if ranges[k].start <= address && address < ranges[k].end {
            return true;
        }
        k = k + 1;
    }
    false
}

impl Program {
    /// Build the program model from what the binary's tables show: its text
    /// symbols, the address ranges of the PLT sections, the text-kind
    /// dynamic relocations, and the jumps found by disassembling the PLT.
    /// Symbols carrying a `@@` version marker are preferred when a
    /// relocation names their unversioned form.
    pub fn new(
        file_path: String,
        symbols: Vec<RawSymbol>,
        dynamic_symbols_ranges: Vec<AddressRange>,
        relocations: Vec<RawRelocation>,
        plt_jumps: Vec<RawJump>,
    ) -> (r: Program)
        ensures
            r@ == (SProgram {
                file_path: file_path@,
                symbols: s_symbols_from(symbols@.map_values(|x: RawSymbol| x@)),
                plt_ranges: dynamic_symbols_ranges@,
                plt_map: s_build_plt_map(
                    plt_jumps@,
                    relocations@.map_values(|x: RawRelocation| x@),
                    s_versioned_pairs(symbols@.map_values(|x: RawSymbol| x@)),
                    dynamic_symbols_ranges@,
                ),
            }),
            r@.wf(),
    {
        let ghost raws = symbols@.map_values(|x: RawSymbol| x@);
        let ghost relocsv = relocations@.map_values(|x: RawRelocation| x@);
        let ghost vsv = s_versioned_pairs(raws);

        // The version map: every name holding `@@` binds its prefix.
        let mut versioned: Vec<(String, String)> = Vec::new();
        let mut i: usize = 0;
        proof {
            assert(raws.take(0) =~= Seq::<SRawSymbol>::empty());
            assert(versioned@.map_values(|p: (String, String)| (p.0@, p.1@)) =~= s_versioned_pairs(
                raws.take(0),
            ));
        }
        while i < symbols.len()
            invariant
                i <= symbols@.len(),
                raws == symbols@.map_values(|x: RawSymbol| x@),
                raws.len() == symbols@.len(),
                versioned@.map_values(|p: (String, String)| (p.0@, p.1@)) == s_versioned_pairs(
                    raws.take(i as int),
                ),
            decreases symbols@.len() - i,
        {
            let ghost v0 = versioned@.map_values(|p: (String, String)| (p.0@, p.1@));
            let name_chars = strutil::chars_of(symbols[i].name.as_str());
            match vsplit_index(&name_chars) {
                Some(at) => {
                    let mut base_chars: Vec<char> = Vec::new();
                    let mut t: usize = 0;
                    while t < at
                        invariant
                            t <= at,
                            at <= name_chars@.len(),
                            base_chars@ == name_chars@.take(t as int),
                        decreases at - t,
                    {
                        base_chars.push(name_chars[t]);
                        assert(base_chars@ =~= name_chars@.take(t + 1));
                        t = t + 1;
                    }
                    let base = strutil::string_of_chars(&base_chars);
                    versioned.push((base, symbols[i].name.clone()));
                    proof {
                        assert(raws.take(i + 1).drop_last() =~= raws.take(i as int));
                        assert(raws.take(i + 1).last() == raws[i as int]);
                        assert(raws[i as int].name == symbols@[i as int].name@);
                        assert(versioned@.map_values(|p: (String, String)| (p.0@, p.1@))
                            =~= s_versioned_pairs(raws.take(i + 1)));
                    }
                },
                None => {
                    proof {
                        assert(raws.take(i + 1).drop_last() =~= raws.take(i as int));
                        assert(raws.take(i + 1).last() == raws[i as int]);
                        assert(raws[i as int].name == symbols@[i as int].name@);
                        assert(versioned@.map_values(|p: (String, String)| (p.0@, p.1@))
                            =~= s_versioned_pairs(raws.take(i + 1)));
                    }
                },
            }
            i = i + 1;
        }
        proof {
            assert(raws.take(raws.len() as int) =~= raws);
        }

        // The symbol table, first record of each name winning.
        let mut table: Vec<SymbolInfo> = Vec::new();
        let mut i: usize = 0;
        proof {
            assert(raws.take(0).map_values(|x: SRawSymbol| s_raw_sym(x)) =~= Seq::<
                SSymbolInfo,
            >::empty());
            assert(table@.map_values(|s: SymbolInfo| s@) =~= s_dedupe(
                raws.take(0).map_values(|x: SRawSymbol| s_raw_sym(x)),
            ));
        }
        while i < symbols.len()
            invariant
                i <= symbols@.len(),
                raws == symbols@.map_values(|x: RawSymbol| x@),
                raws.len() == symbols@.len(),
                table@.map_values(|s: SymbolInfo| s@) == s_dedupe(
                    raws.take(i as int).map_values(|x: SRawSymbol| s_raw_sym(x)),
                ),
            decreases symbols@.len() - i,
        {
            let ghost t0 = table@.map_values(|s: SymbolInfo| s@);
            let sym = &symbols[i];
            let record = SymbolInfo::new(
                sym.name.clone(),
                sym.section_index,
                sym.address,
                sym.size,
            );
            let dup = has_symbol_name(&table, record.name.as_str());
            proof {
                let mapped1 = raws.take(i + 1).map_values(|x: SRawSymbol| s_raw_sym(x));
                let mapped0 = raws.take(i as int).map_values(|x: SRawSymbol| s_raw_sym(x));
                assert(mapped1.drop_last() =~= mapped0);
                assert(raws.take(i + 1).last() == raws[i as int]);
                assert(mapped1.last() == s_raw_sym(raws[i as int]));
                assert(record@ == s_raw_sym(raws[i as int]));
                assert(dup == s_has_name(t0, record@.name));
            }
            if !dup {
                table.push(record);
                proof {
                    assert(table@.map_values(|s: SymbolInfo| s@) =~= t0.push(
                        s_raw_sym(raws[i as int]),
                    ));
                }
            }
            i = i + 1;
        }
        proof {
            assert(raws.take(raws.len() as int) =~= raws);
        }

        // The PLT map: bind each jump inside a PLT range whose target has a
        // relocation.
        let mut plt: Vec<PltEntry> = Vec::new();
        let mut i: usize = 0;
        proof {
            assert(plt_jumps@.take(0) =~= Seq::<RawJump>::empty());
            assert(plt@.map_values(|e: PltEntry| e@) =~= s_build_plt_map(
                plt_jumps@.take(0),
                relocsv,
                vsv,
                dynamic_symbols_ranges@,
            ));
        }
        while i < plt_jumps.len()
            invariant
                i <= plt_jumps@.len(),
                relocsv == relocations@.map_values(|x: RawRelocation| x@),
                vsv == s_versioned_pairs(raws),
                raws == symbols@.map_values(|x: RawSymbol| x@),
                versioned@.map_values(|p: (String, String)| (p.0@, p.1@)) == vsv,
                plt@.map_values(|e: PltEntry| e@) == s_build_plt_map(
                    plt_jumps@.take(i as int),
                    relocsv,
                    vsv,
                    dynamic_symbols_ranges@,
                ),
            decreases plt_jumps@.len() - i,
        {
            let ghost p0 = plt@.map_values(|e: PltEntry| e@);
            let j = plt_jumps[i];
            proof {
                assert(plt_jumps@.take(i + 1).drop_last() =~= plt_jumps@.take(i as int));
                assert(plt_jumps@.take(i + 1).last() == plt_jumps@[i as int]);
            }
            if in_ranges(&dynamic_symbols_ranges, j.ip) {
                match reloc_lookup(&relocations, j.target) {
                    Some(base) => {
                        if !has_plt_ip(&plt, j.ip) {
                            let name = match pairs_lookup(&versioned, base.as_str()) {
                                Some(v) => v,
                                None => base,
                            };
                            plt.push(PltEntry { address: j.ip, name: FunctionName(name) });
                            proof {
                                assert(plt@.map_values(|e: PltEntry| e@) =~= p0.push(
                                    (j.ip, s_plt_name(vsv, relocsv_name(relocsv, j.target))),
                                ));
                                assert(plt@.map_values(|e: PltEntry| e@) =~= s_build_plt_map(
                                    plt_jumps@.take(i + 1),
                                    relocsv,
                                    vsv,
                                    dynamic_symbols_ranges@,
                                ));
                            }
                        } else {
                            proof {
                                assert(plt@.map_values(|e: PltEntry| e@) =~= s_build_plt_map(
                                    plt_jumps@.take(i + 1),
                                    relocsv,
                                    vsv,
                                    dynamic_symbols_ranges@,
                                ));
                            }
                        }
                    },
                    None => {
                        proof {
                            assert(plt@.map_values(|e: PltEntry| e@) =~= s_build_plt_map(
                                plt_jumps@.take(i + 1),
                                relocsv,
                                vsv,
                                dynamic_symbols_ranges@,
                            ));
                        }
                    },
                }
            } else {
                proof {
                    assert(plt@.map_values(|e: PltEntry| e@) =~= s_build_plt_map(
                        plt_jumps@.take(i + 1),
                        relocsv,
                        vsv,
                        dynamic_symbols_ranges@,
                    ));
                }
            }
            i = i + 1;
        }
        proof {
            assert(plt_jumps@.take(plt_jumps@.len() as int) =~= plt_jumps@);
        }

        let r = Program {
            file_path,
            symbols: table,
            dynamic_symbols_ranges,
            dynamic_symbols_map: plt,
        };
        proof {
            lemma_dedupe_wf(raws.map_values(|x: SRawSymbol| s_raw_sym(x)));
            lemma_plt_map_wf(plt_jumps@, relocsv, vsv, dynamic_symbols_ranges@);
            let mapped = raws.map_values(|x: SRawSymbol| s_raw_sym(x));
            assert forall|k: int| 0 <= k < r@.symbols.len() implies (
            #[trigger] r@.symbols[k]).demangled == demangled_of(r@.symbols[k].name) by {
                let j = choose|j: int| 0 <= j < mapped.len() && mapped[j] == r@.symbols[k];
                assert(mapped[j] == s_raw_sym(raws[j]));
            }
        }
        r
    }
}

/// The helper name `s_build_plt_map` binds for the last relocation of an
/// address; used to phrase the loop proofs.
pub open spec fn relocsv_name(relocs: Seq<(u64, Seq<char>)>, address: u64) -> Seq<char> {
    match s_reloc_lookup(relocs, address) {
        Some(n) => n,
        None => Seq::empty(),
    }
}

/// Position of the first `@@` marker in the characters, if any.
fn vsplit_index(chars: &Vec<char>) -> (r: Option<usize>)
    ensures
        (match r {
            Some(i) => Some(i as int),
            None => None,
        }) == s_vsplit(chars@),
        r matches Some(i) ==> i + 1 < chars@.len(),
{
    let n = chars.len();
    if n < 2 {
        proof {
            lemma_vsplit_none_short(chars@);
        }
        return None;
    }
    let mut i: usize = 0;
    while i + 1 < n
        invariant
            n == chars@.len(),
            n >= 2,
            i + 1 <= n,
            forall|k: int| 0 <= k < i ==> !(#[trigger] chars@[k] == '@' && chars@[k + 1] == '@'),
        decreases n - i,
    {
        if chars[i] == '@' && chars[i + 1] == '@' {
            proof {
                lemma_vsplit_found(chars@, i as int);
            }
            return Some(i);
        }
        i = i + 1;
    }
    proof {
        lemma_vsplit_absent(chars@);
    }
    None
}

/// A string of fewer than two characters has no version marker.
proof fn lemma_vsplit_none_short(s: Seq<char>)
    requires
        s.len() < 2,
    ensures
        s_vsplit(s) is None,
{
}

/// Where position `i` holds the first `@@`, the split is at `i`.
proof fn lemma_vsplit_found(s: Seq<char>, i: int)
    requires
        0 <= i,
        i + 1 < s.len(),
        s[i] == '@' && s[i + 1] == '@',
        forall|k: int| 0 <= k < i ==> !(#[trigger] s[k] == '@' && s[k + 1] == '@'),
    ensures
        s_vsplit(s) == Some(i),
    decreases i,
{
    if i == 0 {
    } else {
        let rest = s.drop_first();
        assert(forall|k: int| 0 <= k < i - 1 ==> !(#[trigger] rest[k] == '@' && rest[k + 1] == '@'));
        lemma_vsplit_found(rest, i - 1);
        assert(!(s[0] == '@' && s[1] == '@'));
    }
}

/// Where no position holds `@@`, there is no split.
proof fn lemma_vsplit_absent(s: Seq<char>)
    requires
        forall|k: int| 0 <= k && k + 1 < s.len() ==> !(#[trigger] s[k] == '@' && s[k + 1] == '@'),
    ensures
        s_vsplit(s) is None,
    decreases s.len(),
{
    if s.len() < 2 {
    } else {
        let rest = s.drop_first();
        assert(forall|k: int|
            0 <= k && k + 1 < rest.len() ==> !(#[trigger] rest[k] == '@' && rest[k + 1] == '@')) by {
            assert(forall|k: int|
                0 <= k && k + 1 < rest.len() ==> #[trigger] rest[k] == s[k + 1] && rest[k + 1] == s[k + 2]);
        }
        lemma_vsplit_absent(rest);
        assert(!(s[0] == '@' && s[1] == '@'));
    }
}

/// Whether some record already carries this name.
fn has_symbol_name(table: &Vec<SymbolInfo>, name: &str) -> (r: bool)
    ensures
        r == s_has_name(table@.map_values(|s: SymbolInfo| s@), name@),
{
    let ghost tv = table@.map_values(|s: SymbolInfo| s@);
    let mut k: usize = 0;
    while k < table.len()
        invariant
            tv == table@.map_values(|s: SymbolInfo| s@),
            tv.len() == table@.len(),
            k <= tv.len(),
            forall|j: int| 0 <= j < k ==> (#[trigger] tv[j]).name != name@,
        decreases tv.len() - k,
    {
        if strutil::str_eq(table[k].name.0.as_str(), name) {
            proof {
                assert(tv[k as int].name == name@);
            }
            return true;
        }
        proof {
            assert(tv[k as int] == table@[k as int]@);
        }
        k = k + 1;
    }
    false
}

/// The last relocation for `address`, if any.
fn reloc_lookup(relocations: &Vec<RawRelocation>, address: u64) -> (r: Option<String>)
    ensures
        (match r {
            Some(n) => Some(n@),
            None => None,
        }) == s_reloc_lookup(relocations@.map_values(|x: RawRelocation| x@), address),
{
    let ghost rv = relocations@.map_values(|x: RawRelocation| x@);
    let mut k: usize = relocations.len();
    proof {
        assert(rv.take(rv.len() as int) =~= rv);
    }
    while k > 0
        invariant
            rv == relocations@.map_values(|x: RawRelocation| x@),
            rv.len() == relocations@.len(),
            k <= rv.len(),
            s_reloc_lookup(rv, address) == s_reloc_lookup(rv.take(k as int), address),
        decreases k,
    {
        proof {
            assert(rv.take(k as int).last() == rv[k - 1]);
            assert(rv.take(k as int).drop_last() =~= rv.take(k - 1));
        }
        if relocations[k - 1].address == address {
            return Some(relocations[k - 1].name.clone());
        }
        k = k - 1;
    }
    proof {
        assert(rv.take(0) =~= Seq::<(u64, Seq<char>)>::empty());
    }
    None
}

/// The last binding of `base` in the version map, if any.
fn pairs_lookup(versioned: &Vec<(String, String)>, base: &str) -> (r: Option<String>)
    ensures
        (match r {
            Some(n) => Some(n@),
            None => None,
        }) == s_pairs_lookup(
            versioned@.map_values(|p: (String, String)| (p.0@, p.1@)),
            base@,
        ),
{
    let ghost vv = versioned@.map_values(|p: (String, String)| (p.0@, p.1@));
    let mut k: usize = versioned.len();
    proof {
        assert(vv.take(vv.len() as int) =~= vv);
    }
    while k > 0
        invariant
            vv == versioned@.map_values(|p: (String, String)| (p.0@, p.1@)),
            vv.len() == versioned@.len(),
            k <= vv.len(),
            s_pairs_lookup(vv, base@) == s_pairs_lookup(vv.take(k as int), base@),
        decreases k,
    {
        proof {
            assert(vv.take(k as int).last() == vv[k - 1]);
            assert(vv.take(k as int).drop_last() =~= vv.take(k - 1));
        }
        if strutil::str_eq(versioned[k - 1].0.as_str(), base) {
            return Some(versioned[k - 1].1.clone());
        }
        k = k - 1;
    }
    proof {
        assert(vv.take(0) =~= Seq::<(Seq<char>, Seq<char>)>::empty());
    }
    None
}

/// Whether the PLT map already has an entry at `ip`.
fn has_plt_ip(plt: &Vec<PltEntry>, ip: u64) -> (r: bool)
    ensures
        r == s_has_ip(plt@.map_values(|e: PltEntry| e@), ip),
{
    let ghost pv = plt@.map_values(|e: PltEntry| e@);
    let mut k: usize = 0;
    while k < plt.len()
        invariant
            pv == plt@.map_values(|e: PltEntry| e@),
            pv.len() == plt@.len(),
            k <= pv.len(),
            forall|j: int| 0 <= j < k ==> (#[trigger] pv[j]).0 != ip,
        decreases pv.len() - k,
    {
        if plt[k].address == ip {
            proof {
                assert(pv[k as int].0 == ip);
            }
            return true;
        }
        proof {
            assert(pv[k as int] == plt@[k as int]@);
        }
        k = k + 1;
    }
    false
}

/// A resolved source position.
pub struct SourceLocation {
    pub file: String,
    pub line: u32,
}

/// A complete source position is one with both parts present; partial debug
/// information yields none.
pub fn location_if_complete(file: Option<String>, line: Option<u32>) -> (r: Option<
    SourceLocation,
>)
    ensures
        (match r {
            Some(loc) => Some((loc.file@, loc.line)),
            None => None,
        }) == (match (file, line) {
            (Some(f), Some(l)) => Some((f@, l)),
            _ => None::<(Seq<char>, u32)>,
        }),
{
    match (file, line) {
        (Some(f), Some(l)) => Some(SourceLocation { file: f, line: l }),
        _ => None,
    }
}

/// Where a function's code stands in the binary.
#[derive(Debug)]
pub struct CodeRange {
    pub address: u64,
    pub size: u64,
    pub section_index: u64,
}

/// Which file the source-line tables should be read from.
pub enum DebugSource {
    /// The traced binary itself
    Primary,
    /// The file the GNU debuglink names
    Debuglink(String),
}

/// The debug-line fallback rule: use the binary's own tables when it has a
/// `.debug_line` section; otherwise follow the debuglink where one names a
/// file; otherwise stay with the binary.
pub fn debug_line_source(has_debug_line: bool, debuglink: Option<String>) -> (r: DebugSource)
    ensures
        has_debug_line ==> r is Primary,
        !has_debug_line ==> (match debuglink {
            Some(f) => r matches DebugSource::Debuglink(g) && g@ == f@,
            None => r is Primary,
        }),
{
    if has_debug_line {
        DebugSource::Primary
    } else {
        match debuglink {
            Some(f) => DebugSource::Debuglink(f),
            None => DebugSource::Primary,
        }
    }
}

impl Program {
    /// The symbols of the program, in table order.
    pub fn symbols(&self) -> (r: &Vec<SymbolInfo>)
        ensures
            r@.map_values(|s: SymbolInfo| s@) == self@.symbols,
    {
        &self.symbols
    }

    /// Iterate symbols: where some demangled display name exactly equals the
    /// query, answer only the first such name; otherwise answer every symbol
    /// whose display name contains the query, in table order.
    pub fn get_matches(&self, function_name: &str) -> (r: Vec<FunctionName>)
        ensures
            r@.map_values(|f: FunctionName| f@) == s_matches(self@.symbols, function_name@),
    {
        let ghost sv = self@.symbols;
        let ghost q = function_name@;
        let query_chars = strutil::chars_of(function_name);
        let mut matches: Vec<FunctionName> = Vec::new();
        let mut i: usize = 0;
        proof {
            assert(sv.take(0) =~= Seq::<SSymbolInfo>::empty());
            assert(matches@.map_values(|f: FunctionName| f@) =~= s_substring_matches(
                sv.take(0),
                q,
            ));
        }
        while i < self.symbols.len()
            invariant
                sv == self@.symbols,
                q == function_name@,
                query_chars@ == q,
                sv.len() == self.symbols@.len(),
                i <= sv.len(),
                s_first_exact(sv.take(i as int), q) is None,
                matches@.map_values(|f: FunctionName| f@) == s_substring_matches(
                    sv.take(i as int),
                    q,
                ),
            decreases sv.len() - i,
        {
            let ghost m0 = matches@.map_values(|f: FunctionName| f@);
            let symbol = &self.symbols[i];
            proof {
                assert(sv[i as int] == self.symbols@[i as int]@);
                assert(sv.take(i + 1).drop_last() =~= sv.take(i as int));
                assert(sv.take(i + 1).last() == sv[i as int]);
            }
            let display = symbol.display_name();
            if strutil::str_eq(display, function_name) {
                let mut exact: Vec<FunctionName> = Vec::new();
                exact.push(symbol.name.clone());
                proof {
                    lemma_first_exact_here(sv, q, i as int);
                    assert(exact@.map_values(|f: FunctionName| f@) =~= seq![sv[i as int].name]);
                }
                return exact;
            }
            let display_chars = strutil::chars_of(display);
            if strutil::contains_chars(&display_chars, &query_chars) {
                matches.push(symbol.name.clone());
                proof {
                    assert(matches@.map_values(|f: FunctionName| f@) =~= m0.push(
                        sv[i as int].name,
                    ));
                }
            }
            proof {
                lemma_first_exact_step(sv, q, i as int);
            }
            i = i + 1;
        }
        proof {
            assert(sv.take(sv.len() as int) =~= sv);
        }
        matches
    }

    /// The address of a known function.
    pub fn get_address(&self, function: &FunctionName) -> (r: u64)
        requires
            s_has_name(self@.symbols, function@),
        ensures
            (match s_name_lookup(self@.symbols, function@) {
                Some(sym) => r == sym.address,
                None => false,
            }),
    {
        let found = self.find_symbol(function);
        match found {
            Some(sym) => sym.address(),
            None => {
                proof {
                    lemma_name_lookup_has(self@.symbols, function@);
                }
                // Unreachable: the name is known.
                0
            },
        }
    }

    /// The symbol record of a function, if the name is known.
    pub fn get_symbol(&self, function: &FunctionName) -> (r: Option<&SymbolInfo>)
        ensures
            (match r {
                Some(sym) => s_name_lookup(self@.symbols, function@) == Some(sym@),
                None => s_name_lookup(self@.symbols, function@) is None,
            }),
    {
        self.find_symbol(function)
    }

    /// The first symbol with the given name.
    fn find_symbol(&self, function: &FunctionName) -> (r: Option<&SymbolInfo>)
        ensures
            (match r {
                Some(sym) => s_name_lookup(self@.symbols, function@) == Some(sym@),
                None => s_name_lookup(self@.symbols, function@) is None,
            }),
    {
        let ghost sv = self@.symbols;
        let mut i: usize = 0;
        proof {
            assert(sv.skip(0) =~= sv);
        }
        while i < self.symbols.len()
            invariant
                sv == self@.symbols,
                sv.len() == self.symbols@.len(),
                i <= sv.len(),
                s_name_lookup(sv, function@) == s_name_lookup(sv.skip(i as int), function@),
            decreases sv.len() - i,
        {
            proof {
                assert(sv.skip(i as int)[0] == sv[i as int]);
                assert(sv[i as int] == self.symbols@[i as int]@);
                assert(sv.skip(i as int).drop_first() =~= sv.skip(i + 1));
            }
            if strutil::str_eq(self.symbols[i].name.0.as_str(), function.0.as_str()) {
                return Some(&self.symbols[i]);
            }
            i = i + 1;
        }
        proof {
            assert(sv.skip(sv.len() as int) =~= Seq::<SSymbolInfo>::empty());
        }
        None
    }

    /// Where the code of a function stands: its address, size and section.
    /// Fails for a dynamically linked symbol, whose code is elsewhere.
    pub fn get_code_range(&self, function: &FunctionName) -> (r: Result<CodeRange, Error>)
        requires
            s_has_name(self@.symbols, function@),
            (match s_name_lookup(self@.symbols, function@) {
                Some(sym) => sym.address != 0 ==> sym.section_index is Some,
                None => true,
            }),
        ensures
            (match s_name_lookup(self@.symbols, function@) {
                Some(sym) => {
                    &&& (r is Err) == (sym.address == 0)
                    &&& (r matches Ok(c) ==> c.address == sym.address && c.size == sym.size
                        && Some(c.section_index) == sym.section_index)
                },
                None => false,
            }),
    {
        let found = self.find_symbol(function);
        match found {
            Some(sym) => {
                if sym.address() == 0 {
                    let mut msg = dynamic_symbol_error_prefix();
                    msg.append(function.0.as_str());
                    Err(Error::new(msg))
                } else {
                    match sym.section_index() {
                        Some(section_index) => Ok(
                            CodeRange { address: sym.address(), size: sym.size(), section_index },
                        ),
                        None => {
                            // Ruled out by the precondition.
                            let mut msg = dynamic_symbol_error_prefix();
                            msg.append(function.0.as_str());
                            Err(Error::new(msg))
                        },
                    }
                }
            },
            None => {
                proof {
                    lemma_name_lookup_has(self@.symbols, function@);
                }
                let mut msg = dynamic_symbol_error_prefix();
                msg.append(function.0.as_str());
                Err(Error::new(msg))
            },
        }
    }

    /// The function a call to `address` reaches: through the PLT map for a
    /// PLT address, through the symbol table otherwise.
    pub fn get_function_for_address(&self, address: u64) -> (r: Option<FunctionName>)
        ensures
            (match r {
                Some(f) => Some(f@),
                None => None,
            }) == (if s_in_plt(self@.plt_ranges, address) {
                s_plt_lookup(self@.plt_map, address)
            } else {
                s_addr_lookup(self@.symbols, address)
            }),
    {
        if self.is_dynamic_symbol_address(address) {
            let ghost pv = self@.plt_map;
            let mut i: usize = 0;
            proof {
                assert(pv.skip(0) =~= pv);
            }
            while i < self.dynamic_symbols_map.len()
                invariant
                    s_in_plt(self@.plt_ranges, address),
                    pv == self@.plt_map,
                    pv.len() == self.dynamic_symbols_map@.len(),
                    i <= pv.len(),
                    s_plt_lookup(pv, address) == s_plt_lookup(pv.skip(i as int), address),
                decreases pv.len() - i,
            {
                proof {
                    assert(pv.skip(i as int)[0] == pv[i as int]);
                    assert(pv[i as int] == self.dynamic_symbols_map@[i as int]@);
                    assert(pv.skip(i as int).drop_first() =~= pv.skip(i + 1));
                }
                if self.dynamic_symbols_map[i].address == address {
                    let f = self.dynamic_symbols_map[i].name.clone();
                    proof {
                        assert(s_plt_lookup(pv.skip(i as int), address) == Some(pv[i as int].1));
                    }
                    return Some(f);
                }
                i = i + 1;
            }
            proof {
                assert(pv.skip(pv.len() as int) =~= Seq::<(u64, Seq<char>)>::empty());
            }
            None
        } else {
            let ghost sv = self@.symbols;
            let mut i: usize = 0;
            proof {
                assert(sv.skip(0) =~= sv);
            }
            while i < self.symbols.len()
                invariant
                    !s_in_plt(self@.plt_ranges, address),
                    sv == self@.symbols,
                    sv.len() == self.symbols@.len(),
                    i <= sv.len(),
                    s_addr_lookup(sv, address) == s_addr_lookup(sv.skip(i as int), address),
                decreases sv.len() - i,
            {
                proof {
                    assert(sv.skip(i as int)[0] == sv[i as int]);
                    assert(sv[i as int] == self.symbols@[i as int]@);
                    assert(sv.skip(i as int).drop_first() =~= sv.skip(i + 1));
                }
                if self.symbols[i].address == address && address != 0 {
                    let f = self.symbols[i].name.clone();
                    proof {
                        assert(s_addr_lookup(sv.skip(i as int), address) == Some(
                            sv[i as int].name,
                        ));
                    }
                    return Some(f);
                }
                i = i + 1;
            }
            proof {
                assert(sv.skip(sv.len() as int) =~= Seq::<SSymbolInfo>::empty());
            }
            None
        }
    }

    /// Whether `address` lies inside a PLT section.
    pub fn is_dynamic_symbol_address(&self, address: u64) -> (r: bool)
        ensures
            r == s_in_plt(self@.plt_ranges, address),
    {
        in_ranges(&self.dynamic_symbols_ranges, address)
    }

    /// Whether a symbol is dynamically linked, judged by its address.
    pub fn is_dynamic_symbol(&self, symbol: &SymbolInfo) -> (r: bool)
        ensures
            r == s_in_plt(self@.plt_ranges, symbol@.address),
    {
        self.is_dynamic_symbol_address(symbol.address())
    }
}

/// The message that opens the error for reading code of a dynamic symbol.
fn dynamic_symbol_error_prefix() -> (r: String)
    ensures
        r@ == "Cannot get data for dynamically linked symbol "@,
{
    "Cannot get data for dynamically linked symbol ".to_owned()
}

/// A known name has a first record.
pub proof fn lemma_name_lookup_has(syms: Seq<SSymbolInfo>, name: Seq<char>)
    requires
        s_has_name(syms, name),
    ensures
        s_name_lookup(syms, name) is Some,
    decreases syms.len(),
{
    if syms.len() == 0 {
    } else if syms[0].name == name {
    } else {
        assert(s_has_name(syms.drop_first(), name)) by {
            let k = choose|k: int| 0 <= k < syms.len() && (#[trigger] syms[k]).name == name;
            assert(syms.drop_first()[k - 1].name == name);
        }
        lemma_name_lookup_has(syms.drop_first(), name);
    }
}

/// With no exact display match before `i` and one at `i`, the first exact
/// match is at `i`.
proof fn lemma_first_exact_here(syms: Seq<SSymbolInfo>, q: Seq<char>, i: int)
    requires
        0 <= i < syms.len(),
        s_first_exact(syms.take(i), q) is None,
        s_display(syms[i]) == q,
    ensures
        s_first_exact(syms, q) == Some(i),
    decreases i,
{
    if i == 0 {
    } else {
        assert(syms.take(i)[0] == syms[0]);
        assert(s_display(syms[0]) != q);
        assert(syms.drop_first().take(i - 1) =~= syms.take(i).drop_first());
        assert(syms.drop_first()[i - 1] == syms[i]);
        lemma_first_exact_here(syms.drop_first(), q, i - 1);
    }
}

/// With no exact display match in the first `i + 1` positions either, the
/// prefix of length `i + 1` has none.
proof fn lemma_first_exact_step(syms: Seq<SSymbolInfo>, q: Seq<char>, i: int)
    requires
        0 <= i < syms.len(),
        s_first_exact(syms.take(i), q) is None,
        s_display(syms[i]) != q,
    ensures
        s_first_exact(syms.take(i + 1), q) is None,
    decreases i,
{
    if i == 0 {
        assert(syms.take(1)[0] == syms[0]);
        let e = syms.take(1).drop_first();
        assert(e.len() == 0);
        assert(s_first_exact(e, q) is None);
    } else {
        assert(syms.take(i)[0] == syms[0]);
        assert(s_display(syms[0]) != q) by {
            if s_display(syms.take(i)[0]) == q {
                assert(s_first_exact(syms.take(i), q) == Some(0int));
            }
        }
        assert(syms.drop_first().take(i - 1) =~= syms.take(i).drop_first());
        assert(s_first_exact(syms.drop_first().take(i - 1), q) is None) by {
            if s_first_exact(syms.take(i).drop_first(), q) is Some {
                assert(s_first_exact(syms.take(i), q) is Some);
            }
        }
        assert(syms.drop_first()[i - 1] == syms[i]);
        lemma_first_exact_step(syms.drop_first(), q, i - 1);
        assert(syms.drop_first().take(i) =~= syms.take(i + 1).drop_first());
        assert(syms.take(i + 1)[0] == syms[0]);
        assert(s_first_exact(syms.take(i + 1).drop_first(), q) is None);
    }
}

} // verus!
