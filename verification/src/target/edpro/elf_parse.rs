//! Addresses of the game library's VDP shadow variables, from a debug ELF.

use crate::text::{text_eq, utf8_text};
use object::elf::{FileHeader32, SHT_SYMTAB};
use object::read::elf::{ElfFile, FileHeader, Sym};
use object::Endianness;
use vstd::prelude::*;
use vstd::string::*;
use vstd::utf8::*;

verus! {

/// Addresses of the shadow variables in work RAM.
#[derive(Debug, Clone, Copy, PartialEq, Eq, Structural)]
pub struct SgdkSymbols {
    /// Copy of the VDP registers, 19 bytes.
    pub reg_values: u32,
    /// VRAM address of plane A.
    pub bga_addr: u32,
    /// VRAM address of plane B.
    pub bgb_addr: u32,
    /// VRAM address of the sprite table.
    pub slist_addr: u32,
    /// VRAM address of the window plane.
    pub window_addr: u32,
    /// VRAM address of the horizontal scroll table.
    pub hscroll: u32,
    /// Copy of the palettes, where there is one.
    pub palette_cache: Option<u32>,
}

/// At which step an ELF could not be read, with what the `object` crate says.
#[derive(Debug)]
pub enum ElfFault {
    File(String),
    Endian(String),
    Sections(String),
    Symtab(String),
}

/// Why the addresses could not be found.
#[derive(Debug)]
pub enum ElfError {
    Unreadable(ElfFault),
    /// The symbol table is empty.
    Stripped,
    /// Required symbols that are not in the table.
    Missing(Vec<&'static str>),
}

impl ElfError {
    /// The error's message.
    pub open spec fn text(self) -> Seq<char> {
        match self {
            ElfError::Unreadable(ElfFault::File(e)) => "not a valid ELF: "@ + e@,
            ElfError::Unreadable(ElfFault::Endian(e)) => "ELF endian probe: "@ + e@,
            ElfError::Unreadable(ElfFault::Sections(e)) => "ELF sections: "@ + e@,
            ElfError::Unreadable(ElfFault::Symtab(e)) => "ELF .symtab: "@ + e@,
            ElfError::Stripped =>
                ".symtab is empty \u{2014} ROM was likely stripped. Don't run m68k-elf-strip; ensure `make debug` keeps `-g` and the symbol table."@,
            ElfError::Missing(names) => "missing required SGDK symbols in .symtab: ["@
                + quoted_list(names@)
                + "]. ROM not built with debug? Try `make debug`. Stripped? Don't run m68k-elf-strip \u{2014} `.symtab` is required."@,
        }
    }

    /// The error's message.
    pub fn message(&self) -> (r: String)
        ensures
            r@ == self.text(),
    {
        match self {
            ElfError::Unreadable(ElfFault::File(e)) => said("not a valid ELF: ", e.as_str()),
            ElfError::Unreadable(ElfFault::Endian(e)) => said("ELF endian probe: ", e.as_str()),
            ElfError::Unreadable(ElfFault::Sections(e)) => said("ELF sections: ", e.as_str()),
            ElfError::Unreadable(ElfFault::Symtab(e)) => said("ELF .symtab: ", e.as_str()),
            ElfError::Stripped =>
                ".symtab is empty \u{2014} ROM was likely stripped. Don't run m68k-elf-strip; ensure `make debug` keeps `-g` and the symbol table.".to_owned(),
            ElfError::Missing(names) => {
                let mut m = "missing required SGDK symbols in .symtab: [".to_owned();
                push_quoted_list(&mut m, names);
                m.append(
                    "]. ROM not built with debug? Try `make debug`. Stripped? Don't run m68k-elf-strip \u{2014} `.symtab` is required.",
                );
                m
            },
        }
    }
}

fn said(what: &str, e: &str) -> (r: String)
    ensures
        r@ == what@ + e@,
{
    let mut m = what.to_owned();
    m.append(e);
    m
}

/// Names in double quotes, separated by `, `.
pub open spec fn quoted_list(names: Seq<&str>) -> Seq<char>
    decreases names.len(),
{
    if names.len() == 0 {
        seq![]
    } else if names.len() == 1 {
        "\""@ + names[0]@ + "\""@
    } else {
        quoted_list(names.drop_last()) + ", "@ + ("\""@ + names.last()@ + "\""@)
    }
}

fn push_quoted_list(out: &mut String, names: &Vec<&'static str>)
    ensures
        final(out)@ == old(out)@ + quoted_list(names@),
{
    let ghost head = out@;
    let mut i: usize = 0;
    while i < names.len()
        invariant
            i <= names@.len(),
            out@ == head + quoted_list(names@.take(i as int)),
        decreases names@.len() - i,
    {
        let ghost before = out@;
        if i > 0 {
            out.append(", ");
        }
        out.append("\"");
        out.append(names[i]);
        out.append("\"");
        proof {
            let next = names@.take(i + 1);
            assert(next.drop_last() =~= names@.take(i as int));
            assert(next.last() == names@[i as int]);
            if i == 0 {
                assert(quoted_list(names@.take(0)) =~= seq![]);
                assert(next.len() == 1);
            }
            assert(out@ =~= head + quoted_list(next));
        }
        i += 1;
    }
    proof {
        assert(names@.take(names@.len() as int) =~= names@);
    }
}

/// A symbol: its name, when it has a readable one, and its value.
pub struct ElfSymbol {
    pub name: Option<Vec<u8>>,
    pub value: u32,
}

/// A symbol as plain values.
pub open spec fn plain(s: ElfSymbol) -> (Option<Seq<u8>>, u32) {
    (
        match s.name {
            Some(n) => Some(n@),
            None => None,
        },
        s.value,
    )
}

/// A fault as plain values: the step, counted from 0, and the text.
pub open spec fn told(f: ElfFault) -> (int, Seq<char>) {
    match f {
        ElfFault::File(e) => (0, e@),
        ElfFault::Endian(e) => (1, e@),
        ElfFault::Sections(e) => (2, e@),
        ElfFault::Symtab(e) => (3, e@),
    }
}

/// The symbols of a 32-bit ELF's static symbol table, in order, as the `object`
/// crate reads them; or the step at which it cannot, with what it says.
pub uninterp spec fn symbols_of(bytes: Seq<u8>) -> Result<
    Seq<(Option<Seq<u8>>, u32)>,
    (int, Seq<char>),
>;

/// `object::read::elf::ElfFile::parse`, its header's `endian` and `sections`,
/// and the section table's `symbols`; each symbol is handed out with
/// `symbol_name` and `st_value`. What they give is named.
#[verifier::external_body]
fn elf_symbols(bytes: &[u8]) -> (r: Result<Vec<ElfSymbol>, ElfFault>)
    ensures
        match r {
            Ok(v) => symbols_of(bytes@) == Ok::<_, (int, Seq<char>)>(plain_all(v@)),
            Err(f) => symbols_of(bytes@) == Err::<Seq<(Option<Seq<u8>>, u32)>, _>(told(f)),
        },
{
    let elf = ElfFile::<FileHeader32<Endianness>>::parse(bytes)
        .map_err(|e| ElfFault::File(e.to_string()))?;
    let header = elf.elf_header();
    let endian = header.endian().map_err(|e| ElfFault::Endian(e.to_string()))?;
    let data = elf.data();
    let sections = header.sections(endian, data).map_err(|e| ElfFault::Sections(e.to_string()))?;
    let table = sections.symbols(endian, data, SHT_SYMTAB)
        .map_err(|e| ElfFault::Symtab(e.to_string()))?;
    Ok(table.iter().map(|s| ElfSymbol {
        name: table.symbol_name(endian, s).ok().map(|n| n.to_vec()),
        value: s.st_value(endian),
    }).collect())
}

/// Whether a symbol has a name.
pub open spec fn has_name(s: (Option<Seq<u8>>, u32), name: Seq<char>) -> bool {
    s.0 matches Some(n) && n.len() > 0 && valid_utf8(n) && decode_utf8(n) == name
}

/// The value of the last symbol of a name.
pub open spec fn last_value(s: Seq<(Option<Seq<u8>>, u32)>, name: Seq<char>) -> Option<u32>
    decreases s.len(),
{
    if s.len() == 0 {
        None
    } else if has_name(s.last(), name) {
        Some(s.last().1)
    } else {
        last_value(s.drop_last(), name)
    }
}

/// The value of the first symbol of a name.
pub open spec fn first_value(s: Seq<(Option<Seq<u8>>, u32)>, name: Seq<char>) -> Option<u32>
    decreases s.len(),
{
    if s.len() == 0 {
        None
    } else {
        match first_value(s.drop_last(), name) {
            Some(v) => Some(v),
            None => if has_name(s.last(), name) {
                Some(s.last().1)
            } else {
                None
            },
        }
    }
}

/// The palette copy, under the first of its possible names that occurs.
pub open spec fn palette_value(s: Seq<(Option<Seq<u8>>, u32)>) -> Option<u32> {
    match first_value(s, "palette_cache"@) {
        Some(v) => Some(v),
        None => match first_value(s, "paletteCache"@) {
            Some(v) => Some(v),
            None => first_value(s, "palette"@),
        },
    }
}

/// The required names, in order.
pub open spec fn required(i: int) -> Seq<char> {
    if i == 0 {
        "regValues"@
    } else if i == 1 {
        "bga_addr"@
    } else if i == 2 {
        "bgb_addr"@
    } else if i == 3 {
        "slist_addr"@
    } else if i == 4 {
        "window_addr"@
    } else {
        "hscroll"@
    }
}

/// The first `n` required names that are missing.
pub open spec fn missing_names(s: Seq<(Option<Seq<u8>>, u32)>, n: int) -> Seq<Seq<char>>
    decreases n,
{
    if n <= 0 {
        seq![]
    } else {
        let rest = missing_names(s, n - 1);
        if last_value(s, required(n - 1)) is None {
            rest.push(required(n - 1))
        } else {
            rest
        }
    }
}

/// What resolving the addresses in a symbol table gives.
pub open spec fn resolved(
    s: Seq<(Option<Seq<u8>>, u32)>,
    r: Result<SgdkSymbols, ElfError>,
) -> bool {
    let missing = missing_names(s, 6);
    if s.len() == 0 {
        r matches Err(ElfError::Stripped)
    } else if missing.len() > 0 {
        r matches Err(ElfError::Missing(names)) && names@.map_values(|n: &'static str| n@)
            == missing
    } else {
        &&& r matches Ok(sym)
        &&& Some(sym.reg_values) == last_value(s, "regValues"@)
        &&& Some(sym.bga_addr) == last_value(s, "bga_addr"@)
        &&& Some(sym.bgb_addr) == last_value(s, "bgb_addr"@)
        &&& Some(sym.slist_addr) == last_value(s, "slist_addr"@)
        &&& Some(sym.window_addr) == last_value(s, "window_addr"@)
        &&& Some(sym.hscroll) == last_value(s, "hscroll"@)
        &&& sym.palette_cache == palette_value(s)
    }
}

fn symbol_has_name(s: &ElfSymbol, name: &str) -> (r: bool)
    ensures
        r == has_name(plain(*s), name@),
{
    match &s.name {
        None => false,
        Some(n) => if n.len() == 0 {
            false
        } else {
            match utf8_text(n.as_slice()) {
                None => false,
                Some(t) => text_eq(t, name),
            }
        },
    }
}

/// A symbol table as plain values.
pub open spec fn plain_all(v: Seq<ElfSymbol>) -> Seq<(Option<Seq<u8>>, u32)> {
    v.map_values(|s: ElfSymbol| plain(s))
}

fn find_last(v: &Vec<ElfSymbol>, name: &str) -> (r: Option<u32>)
    ensures
        r == last_value(plain_all(v@), name@),
{
    let mut found: Option<u32> = None;
    let mut i: usize = 0;
    while i < v.len()
        invariant
            i <= v@.len(),
            found == last_value(plain_all(v@).take(i as int), name@),
        decreases v@.len() - i,
    {
        proof {
            assert(plain_all(v@).take(i + 1).drop_last() =~= plain_all(v@).take(i as int));
            assert(plain_all(v@).take(i + 1).last() == plain(v@[i as int]));
        }
        if symbol_has_name(&v[i], name) {
            found = Some(v[i].value);
        }
        i += 1;
    }
    proof {
        assert(plain_all(v@).take(v@.len() as int) =~= plain_all(v@));
    }
    found
}

fn find_first(v: &Vec<ElfSymbol>, name: &str) -> (r: Option<u32>)
    ensures
        r == first_value(plain_all(v@), name@),
{
    let mut found: Option<u32> = None;
    let mut i: usize = 0;
    while i < v.len()
        invariant
            i <= v@.len(),
            found == first_value(plain_all(v@).take(i as int), name@),
        decreases v@.len() - i,
    {
        proof {
            assert(plain_all(v@).take(i + 1).drop_last() =~= plain_all(v@).take(i as int));
            assert(plain_all(v@).take(i + 1).last() == plain(v@[i as int]));
        }
        if found.is_none() && symbol_has_name(&v[i], name) {
            found = Some(v[i].value);
        }
        i += 1;
    }
    proof {
        assert(plain_all(v@).take(v@.len() as int) =~= plain_all(v@));
    }
    found
}

/// Finds the addresses in a symbol table. All but the palette copy are
/// required; of several symbols of a required name the last counts.
pub fn resolve_symbols(v: &Vec<ElfSymbol>) -> (r: Result<SgdkSymbols, ElfError>)
    ensures
        resolved(plain_all(v@), r),
{
    if v.len() == 0 {
        return Err(ElfError::Stripped);
    }
    let reg_values = find_last(v, "regValues");
    let bga_addr = find_last(v, "bga_addr");
    let bgb_addr = find_last(v, "bgb_addr");
    let slist_addr = find_last(v, "slist_addr");
    let window_addr = find_last(v, "window_addr");
    let hscroll = find_last(v, "hscroll");
    let palette_cache = match find_first(v, "palette_cache") {
        Some(p) => Some(p),
        None => match find_first(v, "paletteCache") {
            Some(p) => Some(p),
            None => find_first(v, "palette"),
        },
    };
    let mut missing: Vec<&'static str> = Vec::new();
    let ghost s = plain_all(v@);
    if reg_values.is_none() {
        missing.push("regValues");
    }
    if bga_addr.is_none() {
        missing.push("bga_addr");
    }
    if bgb_addr.is_none() {
        missing.push("bgb_addr");
    }
    if slist_addr.is_none() {
        missing.push("slist_addr");
    }
    if window_addr.is_none() {
        missing.push("window_addr");
    }
    if hscroll.is_none() {
        missing.push("hscroll");
    }
    proof {
        reveal_with_fuel(missing_names, 7);
        assert(missing@.map_values(|n: &'static str| n@) =~= missing_names(s, 6));
    }
    match (reg_values, bga_addr, bgb_addr, slist_addr, window_addr, hscroll) {
        (
            Some(reg_values),
            Some(bga_addr),
            Some(bgb_addr),
            Some(slist_addr),
            Some(window_addr),
            Some(hscroll),
        ) => Ok(
            SgdkSymbols {
                reg_values,
                bga_addr,
                bgb_addr,
                slist_addr,
                window_addr,
                hscroll,
                palette_cache,
            },
        ),
        _ => Err(ElfError::Missing(missing)),
    }
}

/// Finds the addresses in an ELF file.
pub fn parse_sgdk_symbols_from_bytes(bytes: &[u8]) -> (r: Result<SgdkSymbols, ElfError>)
    ensures
        match symbols_of(bytes@) {
            Ok(s) => resolved(s, r),
            Err(why) => r matches Err(ElfError::Unreadable(f)) && told(f) == why,
        },
{
    match elf_symbols(bytes) {
        Err(f) => Err(ElfError::Unreadable(f)),
        Ok(v) => resolve_symbols(&v),
    }
}

/// Among symbols of one name the last gives a shadow variable's address: a symbol
/// behind a complete table replaces the address of its name and no other.
pub proof fn law_later_symbol_counts(
    s: Seq<(Option<Seq<u8>>, u32)>,
    sym: SgdkSymbols,
    name: Seq<char>,
    v: u32,
    r: Result<SgdkSymbols, ElfError>,
)
    requires
        name.len() > 0,
        resolved(s, Ok(sym)),
        resolved(s.push((Some(encode_utf8(name)), v)), r),
    ensures
        r matches Ok(new) && {
            &&& new.reg_values == if name == "regValues"@ { v } else { sym.reg_values }
            &&& new.bga_addr == if name == "bga_addr"@ { v } else { sym.bga_addr }
            &&& new.bgb_addr == if name == "bgb_addr"@ { v } else { sym.bgb_addr }
            &&& new.slist_addr == if name == "slist_addr"@ { v } else { sym.slist_addr }
            &&& new.window_addr == if name == "window_addr"@ { v } else { sym.window_addr }
            &&& new.hscroll == if name == "hscroll"@ { v } else { sym.hscroll }
        },
{
    let x = (Some(encode_utf8(name)), v);
    let t = s.push(x);
    lemma_named_symbol(name, v);
    assert(t.drop_last() =~= s);
    assert(t.last() == x);
    assert forall|n: Seq<char>| #[trigger] last_value(t, n) == if n == name {
        Some(v)
    } else {
        last_value(s, n)
    } by {
        assert(has_name(x, n) <==> n == name);
    }
    reveal_with_fuel(missing_names, 7);
    assert(missing_names(s, 6).len() == 0);
    assert(missing_names(t, 6).len() == 0);
}

/// Of the palette copies the first counts, and the name `palette_cache` before
/// `paletteCache` before `palette`.
pub proof fn law_earlier_palette_counts(s: Seq<(Option<Seq<u8>>, u32)>, name: Seq<char>, v: u32)
    requires
        name.len() > 0,
    ensures
        ({
            let t = s.push((Some(encode_utf8(name)), v));
            &&& first_value(s, name) is Some ==> palette_value(t) == palette_value(s)
            &&& first_value(s, "palette_cache"@) is None && name == "palette_cache"@
                ==> palette_value(t) == Some(v)
            &&& first_value(s, "palette_cache"@) is Some ==> palette_value(t) == first_value(
                s,
                "palette_cache"@,
            )
            &&& palette_value(s) is None && (name == "paletteCache"@ || name == "palette"@)
                ==> palette_value(t) == Some(v)
            &&& name != "palette_cache"@ && name != "paletteCache"@ && name != "palette"@
                ==> palette_value(t) == palette_value(s)
        }),
{
    let x = (Some(encode_utf8(name)), v);
    let t = s.push(x);
    lemma_named_symbol(name, v);
    assert(t.drop_last() =~= s);
    assert(t.last() == x);
    assert forall|n: Seq<char>| #[trigger] first_value(t, n) == if n == name && first_value(
        s,
        n,
    ) is None {
        Some(v)
    } else {
        first_value(s, n)
    } by {
        assert(has_name(x, n) <==> n == name);
    }
    reveal_strlit("palette_cache");
    reveal_strlit("paletteCache");
    reveal_strlit("palette");
    assert("palette_cache"@.len() == 13 && "paletteCache"@.len() == 12 && "palette"@.len() == 7);
}

proof fn lemma_named_symbol(name: Seq<char>, v: u32)
    requires
        name.len() > 0,
    ensures
        forall|n: Seq<char>| #[trigger]
            has_name((Some(encode_utf8(name)), v), n) <==> n == name,
{
    encode_utf8_valid_utf8(name);
    encode_utf8_decode_utf8(name);
    if encode_utf8(name).len() == 0 {
        assert(encode_utf8(name) =~= encode_utf8(seq![]));
        encode_utf8_decode_utf8(seq![]);
    }
}

/// A table without symbols is a stripped one; one that lacks a required name is
/// refused with the names it lacks, in their order.
pub proof fn law_missing_is_told(
    s: Seq<(Option<Seq<u8>>, u32)>,
    r: Result<SgdkSymbols, ElfError>,
)
    requires
        resolved(s, r),
    ensures
        s.len() == 0 <==> (r matches Err(ElfError::Stripped)),
        r is Ok <==> s.len() > 0 && last_value(s, "regValues"@) is Some && last_value(
            s,
            "bga_addr"@,
        ) is Some && last_value(s, "bgb_addr"@) is Some && last_value(s, "slist_addr"@) is Some
            && last_value(s, "window_addr"@) is Some && last_value(s, "hscroll"@) is Some,
{
    reveal_with_fuel(missing_names, 7);
}

proof fn lemma_missing(s: Seq<(Option<Seq<u8>>, u32)>, n: int, k: int)
    requires
        0 <= k < n <= 6,
    ensures
        last_value(s, required(k)) is None ==> missing_names(s, n).contains(required(k)),
        forall|i: int|
            0 <= i < missing_names(s, n).len() ==> last_value(s, #[trigger] missing_names(s, n)[i])
                is None,
    decreases n,
{
    let rest = missing_names(s, n - 1);
    let all = missing_names(s, n);
    if n > 1 {
        lemma_missing(s, n - 1, if k < n - 1 { k } else { 0 });
    }
    if last_value(s, required(k)) is None {
        if k == n - 1 {
            assert(all[all.len() - 1] == required(k));
        } else {
            let i = choose|i: int| 0 <= i < rest.len() && rest[i] == required(k);
            assert(all[i] == required(k));
        }
    }
    assert forall|i: int| 0 <= i < all.len() implies last_value(s, #[trigger] all[i]) is None by {
        if i < rest.len() {
            assert(all[i] == rest[i]);
        }
    }
}

/// The names that a refusal lists are those that the table lacks, all of them and
/// no others.
pub proof fn law_missing_names(s: Seq<(Option<Seq<u8>>, u32)>, i: int)
    ensures
        ({
            let m = missing_names(s, 6);
            &&& last_value(s, "regValues"@) is None ==> m.contains("regValues"@)
            &&& last_value(s, "bga_addr"@) is None ==> m.contains("bga_addr"@)
            &&& last_value(s, "bgb_addr"@) is None ==> m.contains("bgb_addr"@)
            &&& last_value(s, "slist_addr"@) is None ==> m.contains("slist_addr"@)
            &&& last_value(s, "window_addr"@) is None ==> m.contains("window_addr"@)
            &&& last_value(s, "hscroll"@) is None ==> m.contains("hscroll"@)
            &&& 0 <= i < m.len() ==> last_value(s, m[i]) is None
            &&& m.len() <= 6
        }),
{
    lemma_missing(s, 6, 0);
    lemma_missing(s, 6, 1);
    lemma_missing(s, 6, 2);
    lemma_missing(s, 6, 3);
    lemma_missing(s, 6, 4);
    lemma_missing(s, 6, 5);
    reveal_with_fuel(missing_names, 7);
}

} // verus!
