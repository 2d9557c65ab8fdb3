//! What the PE32 loader hands the emulator: the mapped image, its entry
//! point and the imported functions bound to stub addresses.
use vstd::prelude::*;

use crate::dynamic_error::DynamicError;
use crate::memory::{le_bytes, to_le_bytes_u64, Memory, Permissions, RegionView};
use crate::text::{chars_of, lower_seq, push_str, to_lower_char};

verus! {

/// Base of the guest stack.
pub const STACK_BASE: u32 = 0x0fe00000;

/// Size of the guest stack (1 MiB).
pub const STACK_SIZE: usize = 1048576;

/// Initial stack pointer: 256 bytes below the top of the stack.
pub const STACK_TOP: u32 = 0x0fefff00;

/// Address of the first import stub; stubs are 0x100 bytes apart.
pub const API_STUB_BASE: u32 = 0x70000000;

/// An imported function as the emulator answers it.
#[derive(Debug, Clone)]
pub struct ApiImport {
    pub module: String,
    pub name: String,
    pub argument_count: usize,
}

/// A loaded PE32 image.
pub struct LoadedImage {
    pub memory: Memory,
    pub image_base: u32,
    pub entry_point: u32,
    /// Import stubs by address, in address order.
    pub imports: Vec<(u32, ApiImport)>,
    pub warnings: Vec<String>,
}

/// `size` rounded up to a whole number of 4 KiB pages (the largest page
/// boundary when rounding would overflow).
pub open spec fn align_page_spec(size: usize) -> usize {
    let raised = if size + 0xfff > usize::MAX { usize::MAX as int } else { size + 0xfff };
    (raised - raised % 4096) as usize
}

/// `size` rounded up to a whole number of 4 KiB pages.
pub fn align_page(size: usize) -> (r: usize)
    ensures
        r == align_page_spec(size),
{
    let raised = size.saturating_add(0xfff);
    let r = raised & !0xfffusize;
    assert(raised & !0xfffusize == raised - raised % 4096) by (bit_vector);
    r
}

/// How many 32-bit stack arguments a modeled API pops (stdcall), by its
/// name in any ASCII case; zero for an API that is not modeled.
pub open spec fn argument_count_spec(name: Seq<char>) -> usize {
    let n = lower_seq(name);
    if n == "gettickcount"@ || n == "getcurrentprocessid"@ || n == "getcurrentthreadid"@ {
        0
    } else if n == "exitprocess"@ || n == "sleep"@ || n == "getmodulehandlea"@ || n == "loadlibrarya"@ || n == "deletefilea"@
        || n == "closehandle"@ {
        1
    } else if n == "winexec"@ || n == "getprocaddress"@ || n == "virtualfree"@ {
        2
    } else if n == "virtualprotect"@ || n == "connect"@ {
        3
    } else if n == "virtualalloc"@ || n == "send"@ || n == "recv"@ {
        4
    } else if n == "regopenkeyexa"@ || n == "internetopena"@ || n == "writefile"@ {
        5
    } else if n == "regsetvalueexa"@ || n == "internetopenurla"@ {
        6
    } else if n == "createfilea"@ {
        7
    } else {
        0
    }
}

fn is_text(v: &Vec<char>, t: &str) -> (r: bool)
    ensures
        r == (v@ == t@),
{
    crate::text::chars_equal(v, &chars_of(t))
}

/// How many 32-bit stack arguments a modeled API pops.
pub fn argument_count(name: &str) -> (r: usize)
    ensures
        r == argument_count_spec(name@),
{
    let chars = chars_of(name);
    let mut n: Vec<char> = Vec::new();
    let mut i: usize = 0;
    while i < chars.len()
        invariant
            i <= chars@.len(),
            chars@ == name@,
            n@ == lower_seq(name@.subrange(0, i as int)),
        decreases chars@.len() - i,
    {
        n.push(to_lower_char(chars[i]));
        i = i + 1;
        assert(n@ =~= lower_seq(name@.subrange(0, i as int)));
    }
    assert(name@.subrange(0, name@.len() as int) =~= name@);
    if is_text(&n, "gettickcount") || is_text(&n, "getcurrentprocessid") || is_text(&n, "getcurrentthreadid") {
        0
    } else if is_text(&n, "exitprocess") || is_text(&n, "sleep") || is_text(&n, "getmodulehandlea") || is_text(&n, "loadlibrarya")
        || is_text(&n, "deletefilea") || is_text(&n, "closehandle") {
        1
    } else if is_text(&n, "winexec") || is_text(&n, "getprocaddress") || is_text(&n, "virtualfree") {
        2
    } else if is_text(&n, "virtualprotect") || is_text(&n, "connect") {
        3
    } else if is_text(&n, "virtualalloc") || is_text(&n, "send") || is_text(&n, "recv") {
        4
    } else if is_text(&n, "regopenkeyexa") || is_text(&n, "internetopena") || is_text(&n, "writefile") {
        5
    } else if is_text(&n, "regsetvalueexa") || is_text(&n, "internetopenurla") {
        6
    } else if is_text(&n, "createfilea") {
        7
    } else {
        0
    }
}

// ----- loading a PE32 image -----

/// What `goblin::pe::PE::parse` reads from a sample's header: whether it is
/// PE32+, the COFF machine, the optional header's `size_of_headers` (if
/// there is an optional header), the image base and the entry point's RVA;
/// or the parser's error message.
pub uninterp spec fn pe_header_of(bytes: Seq<u8>) -> Result<(bool, u16, Option<u32>, u64, u32), Seq<char>>;

/// The sections that parse finds: name (when it is valid text), virtual
/// size, raw size, virtual address, characteristics and raw-data offset.
pub uninterp spec fn pe_sections_of(bytes: Seq<u8>) -> Seq<(Option<Seq<char>>, u32, u32, u32, u32, u32)>;

/// The imports that parse finds: function name, DLL name and the offset of
/// the import-address-table slot.
pub uninterp spec fn pe_imports_of(bytes: Seq<u8>) -> Seq<(Seq<char>, Seq<char>, usize)>;

/// `goblin::pe::PE::parse`, read for its header facts (`is_64`,
/// `header.coff_header.machine`, the optional header's `size_of_headers`,
/// `image_base`, `entry`) or its error's message: named by `pe_header_of`.
#[verifier::external_body]
fn pe_header(bytes: &[u8]) -> (r: Result<(bool, u16, Option<u32>, u64, u32), String>)
    ensures
        match (r, pe_header_of(bytes@)) {
            (Ok(a), Ok(b)) => a == b,
            (Err(e), Err(f)) => e@ == f,
            _ => false,
        },
{
    match goblin::pe::PE::parse(bytes) {
        Ok(pe) => Ok((pe.is_64, pe.header.coff_header.machine, pe.header.optional_header.map(|o| o.windows_fields.size_of_headers), pe.image_base, pe.entry)),
        Err(error) => Err(error.to_string()),
    }
}

/// The same parse's `sections`, each as its `name()` (when valid),
/// `virtual_size`, `size_of_raw_data`, `virtual_address`, `characteristics`
/// and `pointer_to_raw_data`; none when parsing fails: named by
/// `pe_sections_of` for bytes that parse.
#[verifier::external_body]
fn pe_sections(bytes: &[u8]) -> (r: Vec<(Option<String>, u32, u32, u32, u32, u32)>)
    ensures
        pe_header_of(bytes@) is Ok ==> r@.map_values(|s: (Option<String>, u32, u32, u32, u32, u32)| (
            match s.0 {
                Some(n) => Some(n@),
                None => None,
            },
            s.1,
            s.2,
            s.3,
            s.4,
            s.5,
        )) == pe_sections_of(bytes@),
{
    match goblin::pe::PE::parse(bytes) {
        Ok(pe) => pe.sections.iter().map(|s| (s.name().ok().map(String::from), s.virtual_size, s.size_of_raw_data, s.virtual_address, s.characteristics, s.pointer_to_raw_data)).collect(),
        Err(_) => Vec::new(),
    }
}

/// The same parse's `imports`, each as its `name`, `dll` and `offset`;
/// none when parsing fails: named by `pe_imports_of` for bytes that parse.
#[verifier::external_body]
fn pe_imports(bytes: &[u8]) -> (r: Vec<(String, String, usize)>)
    ensures
        pe_header_of(bytes@) is Ok ==> r@.map_values(|i: (String, String, usize)| (i.0@, i.1@, i.2)) == pe_imports_of(bytes@),
{
    match goblin::pe::PE::parse(bytes) {
        Ok(pe) => pe.imports.iter().map(|i| (i.name.to_string(), i.dll.to_owned(), i.offset)).collect(),
        Err(_) => Vec::new(),
    }
}

/// A section as the loader reads it.
pub type SectionFacts32 = (Option<Seq<char>>, u32, u32, u32, u32, u32);

/// A forced write of `data` at `address` taking `m` to `m2` with result `r`.
pub open spec fn forced(m: Memory, m2: Memory, address: u32, data: Seq<u8>, r: Result<(), DynamicError>) -> bool {
    m2.wf() && m2.allocated_bytes() == m.allocated_bytes() && Memory::write_outcome(m@, m2@, address, data, true, r)
}

/// The mapped size of a section: the larger of its virtual and raw sizes,
/// at least one byte.
pub open spec fn section_size(s: SectionFacts32) -> usize {
    let a = if s.1 > s.2 { s.1 } else { s.2 };
    if a == 0 { 1 } else { a as usize }
}

/// Read, write and execute from a section's characteristics.
pub open spec fn section_permissions(characteristics: u32) -> Permissions {
    Permissions {
        read: characteristics & 0x4000_0000 != 0,
        write: characteristics & 0x8000_0000 != 0,
        execute: characteristics & 0x2000_0000 != 0,
    }
}

/// A section's name, or `<invalid>`.
pub open spec fn section_name(n: Option<Seq<char>>) -> Seq<char> {
    match n {
        Some(t) => t,
        None => "<invalid>"@,
    }
}

/// A section's raw data when it lies inside the sample.
pub open spec fn raw_range(bytes: Seq<u8>, s: SectionFacts32) -> Option<Seq<u8>> {
    if s.5 + s.2 <= bytes.len() {
        Some(bytes.subrange(s.5 as int, s.5 + s.2))
    } else {
        None
    }
}

/// Mapping the sections `secs` in order from `m0`, each at `base` plus its
/// virtual address and filled with its raw data when that lies inside the
/// sample (else a warning when it had raw data), ends in `m` with warnings
/// `warns` and result `r`; the first failure ends the loading.
pub open spec fn sections_loaded(
    m0: Memory,
    base: u32,
    bytes: Seq<u8>,
    secs: Seq<SectionFacts32>,
    m: Memory,
    warns: Seq<Seq<char>>,
    r: Result<(), DynamicError>,
) -> bool
    decreases secs.len(),
{
    if secs.len() == 0 {
        m == m0 && warns.len() == 0 && r is Ok
    } else {
        let s = secs[0];
        if base + s.3 > u32::MAX {
            r matches Err(DynamicError::InvalidPe(t)) && t@ == "section address overflow"@
        } else {
            let address = (base + s.3) as u32;
            let name = section_name(s.0);
            exists|m1: Memory, r1: Result<(), DynamicError>|
                #[trigger] Memory::map_outcome(m0, m1, address, align_page_spec(section_size(s)), section_permissions(s.4), name, r1)
                    && match r1 {
                    Err(e) => r == Err::<(), DynamicError>(e),
                    Ok(_) => match raw_range(bytes, s) {
                        Some(raw) => exists|m2: Memory, r2: Result<(), DynamicError>| #[trigger] forced(m1, m2, address, raw, r2) && match r2 {
                            Err(e) => r == Err::<(), DynamicError>(e),
                            Ok(_) => sections_loaded(m2, base, bytes, secs.drop_first(), m, warns, r),
                        },
                        None => if s.2 != 0 {
                            warns.len() >= 1 && warns[0] == "section "@ + name + " has out-of-range raw data"@
                                && sections_loaded(m1, base, bytes, secs.drop_first(), m, warns.drop_first(), r)
                        } else {
                            sections_loaded(m1, base, bytes, secs.drop_first(), m, warns, r)
                        },
                    },
                }
        }
    }
}

/// Binding the imports `imps` from position `index`: each gets the stub
/// at `API_STUB_BASE + index * 0x100`, written into its import-address-table
/// slot at `base` plus its offset (cut to 32 bits); at 4096 imports the
/// rest are dropped with a warning. Ends in `m` with the stubs `stubs`
/// (address, module, name, argument count), warnings `warns` and `r`.
pub open spec fn imports_loaded(
    m0: Memory,
    base: u32,
    imps: Seq<(Seq<char>, Seq<char>, usize)>,
    index: nat,
    m: Memory,
    stubs: Seq<(u32, Seq<char>, Seq<char>, usize)>,
    warns: Seq<Seq<char>>,
    r: Result<(), DynamicError>,
) -> bool
    decreases imps.len(),
{
    if imps.len() == 0 {
        m == m0 && stubs.len() == 0 && warns.len() == 0 && r is Ok
    } else if index >= 4096 {
        m == m0 && stubs.len() == 0 && warns == seq!["import table truncated at 4096 functions"@] && r is Ok
    } else {
        let imp = imps[0];
        let stub = (API_STUB_BASE + index * 0x100) as u32;
        let slot = imp.2 as u32;
        if base + slot > u32::MAX {
            r matches Err(DynamicError::InvalidPe(t)) && t@ == "IAT address overflow"@
        } else {
            exists|m1: Memory, r1: Result<(), DynamicError>| #[trigger] forced(m0, m1, (base + slot) as u32, le_bytes(stub as nat, 4), r1) && match r1 {
                Err(e) => r == Err::<(), DynamicError>(e),
                Ok(_) => stubs.len() >= 1 && stubs[0] == (stub, imp.1, imp.0, argument_count_spec(imp.0))
                    && imports_loaded(m1, base, imps.drop_first(), index + 1, m, stubs.drop_first(), warns, r),
            }
        }
    }
}

/// An import binding as values: stub address, module, name, argument count.
pub open spec fn stub_view(e: (u32, ApiImport)) -> (u32, Seq<char>, Seq<char>, usize) {
    (e.0, e.1.module@, e.1.name@, e.1.argument_count)
}

/// The header's mapped size: `size_of_headers`, at least 0x200, at most the
/// sample's length (or 0x200).
pub open spec fn header_size(size_of_headers: u32, len: nat) -> usize {
    let a = if size_of_headers < 0x200 { 0x200 } else { size_of_headers as int };
    let b = if len < 0x200 { 0x200 } else { len as int };
    (if a < b { a } else { b }) as usize
}

/// The first `hs` bytes of the sample (all of it when shorter).
pub open spec fn header_bytes(bytes: Seq<u8>, hs: usize) -> Seq<u8> {
    bytes.subrange(0, if hs < bytes.len() { hs as int } else { bytes.len() as int })
}

/// From an empty memory: the headers (`hs` bytes, read-only, page-rounded)
/// mapped at `base` and filled from the sample, then `after_headers`.
pub open spec fn mapped_image(
    bytes: Seq<u8>,
    base: u32,
    entry_point: u32,
    hs: usize,
    secs: Seq<SectionFacts32>,
    imps: Seq<(Seq<char>, Seq<char>, usize)>,
    r: Result<LoadedImage, DynamicError>,
) -> bool {
    exists|m0: Memory, m1: Memory, r1: Result<(), DynamicError>|
        m0.wf() && m0@ == Seq::<RegionView>::empty() && m0.allocated_bytes() == 0
        && #[trigger] Memory::map_outcome(m0, m1, base, align_page_spec(hs), Permissions { read: true, write: false, execute: false }, "PE headers"@, r1)
        && match r1 {
        Err(e) => r matches Err(x) && x == e,
        Ok(_) => exists|m2: Memory, r2: Result<(), DynamicError>| #[trigger] forced(m1, m2, base, header_bytes(bytes, hs), r2) && match r2 {
            Err(e) => r matches Err(x) && x == e,
            Ok(_) => after_headers(bytes, base, entry_point, secs, imps, m2, r),
        },
    }
}

/// After the headers: the sections, then the stack, then the imports.
pub open spec fn after_headers(
    bytes: Seq<u8>,
    base: u32,
    entry_point: u32,
    secs: Seq<SectionFacts32>,
    imps: Seq<(Seq<char>, Seq<char>, usize)>,
    m2: Memory,
    r: Result<LoadedImage, DynamicError>,
) -> bool {
    exists|m3: Memory, w1: Seq<Seq<char>>, r3: Result<(), DynamicError>| #[trigger] sections_loaded(m2, base, bytes, secs, m3, w1, r3) && match r3 {
        Err(e) => r matches Err(x) && x == e,
        Ok(_) => after_sections(base, entry_point, imps, m3, w1, r),
    }
}

/// After the sections (with warnings `w1`): the stack, then the imports.
pub open spec fn after_sections(
    base: u32,
    entry_point: u32,
    imps: Seq<(Seq<char>, Seq<char>, usize)>,
    m3: Memory,
    w1: Seq<Seq<char>>,
    r: Result<LoadedImage, DynamicError>,
) -> bool {
    exists|m4: Memory, r4: Result<(), DynamicError>|
        #[trigger] Memory::map_outcome(m3, m4, STACK_BASE, STACK_SIZE, Permissions { read: true, write: true, execute: false }, "thread stack"@, r4) && match r4 {
        Err(e) => r matches Err(x) && x == e,
        Ok(_) => after_stack(base, entry_point, imps, m4, w1, r),
    }
}

/// After the stack: the imports, and the loaded image.
pub open spec fn after_stack(
    base: u32,
    entry_point: u32,
    imps: Seq<(Seq<char>, Seq<char>, usize)>,
    m4: Memory,
    w1: Seq<Seq<char>>,
    r: Result<LoadedImage, DynamicError>,
) -> bool {
    exists|m5: Memory, stubs: Seq<(u32, Seq<char>, Seq<char>, usize)>, w2: Seq<Seq<char>>, r5: Result<(), DynamicError>|
        #[trigger] imports_loaded(m4, base, imps, 0, m5, stubs, w2, r5) && match r5 {
        Err(e) => r matches Err(x) && x == e,
        Ok(_) => r matches Ok(li) && li.memory == m5 && li.image_base == base && li.entry_point == entry_point
            && li.imports@.map_values(|e: (u32, ApiImport)| stub_view(e)) == stubs
            && li.warnings@.map_values(|w: String| w@) == w1 + w2,
    }
}

/// What loading a sample does, given what the parser read from it: a
/// parse error, a target other than PE32/x86, a missing optional header,
/// an image base above 4 GiB or an entry point past it is refused with
/// the original's message; otherwise the headers (read-only, page-rounded)
/// are mapped at the image base and filled, then the sections, then the
/// stack, then the imports are bound; the first failure is the result.
pub open spec fn load_outcome(
    bytes: Seq<u8>,
    header: Result<(bool, u16, Option<u32>, u64, u32), Seq<char>>,
    secs: Seq<SectionFacts32>,
    imps: Seq<(Seq<char>, Seq<char>, usize)>,
    r: Result<LoadedImage, DynamicError>,
) -> bool {
    match header {
        Err(message) => r matches Err(DynamicError::InvalidPe(t)) && t@ == message,
        Ok((is_64, machine, size_of_headers, image_base, entry)) => if is_64 || machine != 0x14c {
            r matches Err(DynamicError::UnsupportedTarget(t)) && t@ == "dynamic analysis currently supports PE32/x86 executables only"@
        } else {
            match size_of_headers {
                None => r matches Err(DynamicError::InvalidPe(t)) && t@ == "missing optional header"@,
                Some(soh) => if image_base > u32::MAX {
                    r matches Err(DynamicError::InvalidPe(t)) && t@ == "image base does not fit PE32"@
                } else if image_base + entry > u32::MAX {
                    r matches Err(DynamicError::InvalidPe(t)) && t@ == "entry point overflow"@
                } else {
                    mapped_image(bytes, image_base as u32, (image_base + entry) as u32, header_size(soh, bytes.len()), secs, imps, r)
                },
            }
        },
    }
}

/// The views of parsed sections.
pub open spec fn section_views(v: Seq<(Option<String>, u32, u32, u32, u32, u32)>) -> Seq<SectionFacts32> {
    v.map_values(|s: (Option<String>, u32, u32, u32, u32, u32)| (
        match s.0 {
            Some(n) => Some(n@),
            None => None,
        },
        s.1,
        s.2,
        s.3,
        s.4,
        s.5,
    ))
}

/// The views of parsed imports.
pub open spec fn import_views(v: Seq<(String, String, usize)>) -> Seq<(Seq<char>, Seq<char>, usize)> {
    v.map_values(|i: (String, String, usize)| (i.0@, i.1@, i.2))
}

/// The texts of a list of warnings.
pub open spec fn texts(v: Seq<String>) -> Seq<Seq<char>> {
    v.map_values(|w: String| w@)
}

fn push_text(v: &mut Vec<String>, s: String)
    ensures
        texts(final(v)@) == texts(old(v)@).push(s@),
{
    let ghost before = v@;
    v.push(s);
    assert(texts(v@) =~= texts(before).push(s@));
}

/// Maps and fills the sections in order.
fn map_sections(
    memory: &mut Memory,
    base: u32,
    bytes: &[u8],
    secs: &Vec<(Option<String>, u32, u32, u32, u32, u32)>,
    warnings: &mut Vec<String>,
) -> (r: Result<(), DynamicError>)
    requires
        old(memory).wf(),
    ensures
        final(memory).wf(),
        exists|w: Seq<Seq<char>>| #[trigger] sections_loaded(*old(memory), base, bytes@, section_views(secs@), *final(memory), w, r)
            && (r is Ok ==> texts(final(warnings)@) == texts(old(warnings)@) + w),
{
    let ghost m0 = *memory;
    let ghost sv = section_views(secs@);
    let ghost mut acc: Seq<Seq<char>> = Seq::empty();
    let mut i: usize = 0;
    assert(sv.skip(0) =~= sv);
    assert(texts(warnings@) =~= texts(old(warnings)@) + acc);
    while i < secs.len()
        invariant
            memory.wf(),
            i <= secs@.len(),
            sv == section_views(secs@),
            m0 == *old(memory),
            texts(warnings@) == texts(old(warnings)@) + acc,
            forall|mf: Memory, w: Seq<Seq<char>>, rf: Result<(), DynamicError>|
                #[trigger] sections_loaded(*memory, base, bytes@, sv.skip(i as int), mf, w, rf) ==> sections_loaded(m0, base, bytes@, sv, mf, acc + w, rf),
        decreases secs@.len() - i,
    {
        let ghost mb = *memory;
        let ghost rest = sv.skip(i as int);
        assert(rest[0] == sv[i as int]);
        assert(rest.drop_first() =~= sv.skip(i + 1));
        let (name_opt, virtual_size, raw_size, virtual_address, characteristics, raw_start) = (
            &secs[i].0, secs[i].1, secs[i].2, secs[i].3, secs[i].4, secs[i].5,
        );
        if base as u64 + virtual_address as u64 > u32::MAX as u64 {
            let e = DynamicError::InvalidPe("section address overflow".to_owned());
            proof {
                assert(sections_loaded(mb, base, bytes@, rest, *memory, Seq::empty(), Err::<(), DynamicError>(e)));
                assert(acc + Seq::<Seq<char>>::empty() =~= acc);
                assert(sections_loaded(m0, base, bytes@, sv, *memory, acc, Err::<(), DynamicError>(e)));
            }
            return Err(e);
        }
        let address = base + virtual_address;
        assert(rest[0].1 == virtual_size && rest[0].2 == raw_size && rest[0].3 == virtual_address
            && rest[0].4 == characteristics && rest[0].5 == raw_start);
        assert(address == (base + rest[0].3) as u32);
        let larger = if virtual_size > raw_size { virtual_size } else { raw_size };
        let size: usize = if larger == 0 { 1 } else { larger as usize };
        let permissions = Permissions {
            read: characteristics & 0x4000_0000 != 0,
            write: characteristics & 0x8000_0000 != 0,
            execute: characteristics & 0x2000_0000 != 0,
        };
        let name = match name_opt {
            Some(n) => n.clone(),
            None => "<invalid>".to_owned(),
        };
        let ghost name_view = name@;
        let mapped = memory.map(address, align_page(size), permissions, name.clone());
        let ghost m1 = *memory;
        match mapped {
            Err(e) => {
                proof {
                    assert(Memory::map_outcome(mb, m1, address, align_page_spec(section_size(rest[0])), section_permissions(rest[0].4), section_name(rest[0].0), mapped));
                    assert(sections_loaded(mb, base, bytes@, rest, *memory, Seq::empty(), Err::<(), DynamicError>(e)));
                    assert(acc + Seq::<Seq<char>>::empty() =~= acc);
                    assert(sections_loaded(m0, base, bytes@, sv, *memory, acc, Err::<(), DynamicError>(e)));
                }
                return Err(e);
            },
            Ok(()) => {},
        }
        assert(Memory::map_outcome(mb, m1, address, align_page_spec(section_size(rest[0])), section_permissions(rest[0].4), section_name(rest[0].0), mapped));
        if raw_start as u64 + raw_size as u64 <= bytes.len() as u64 {
            let start = raw_start as usize;
            let end = start + raw_size as usize;
            let raw = vstd::slice::slice_subrange(bytes, start, end);
            let written = memory.write_force(address, raw);
            assert(forced(m1, *memory, address, bytes@.subrange(start as int, end as int), written));
            assert(raw_range(bytes@, rest[0]) == Some(bytes@.subrange(start as int, end as int)));
            assert(Memory::map_outcome(mb, m1, (base + rest[0].3) as u32, align_page_spec(section_size(rest[0])), section_permissions(rest[0].4), section_name(rest[0].0), Ok::<(), DynamicError>(())));
            assert(forced(m1, *memory, (base + rest[0].3) as u32, raw_range(bytes@, rest[0])->Some_0, written));
            match written {
                Err(e) => {
                    proof {
                        assert(sections_loaded(mb, base, bytes@, rest, *memory, Seq::empty(), Err::<(), DynamicError>(e)));
                        assert(acc + Seq::<Seq<char>>::empty() =~= acc);
                        assert(sections_loaded(m0, base, bytes@, sv, *memory, acc, Err::<(), DynamicError>(e)));
                    }
                    return Err(e);
                },
                Ok(()) => {},
            }
            proof {
                let m2 = *memory;
                assert forall|mf: Memory, w: Seq<Seq<char>>, rf: Result<(), DynamicError>|
                    #[trigger] sections_loaded(m2, base, bytes@, sv.skip(i + 1), mf, w, rf) implies sections_loaded(m0, base, bytes@, sv, mf, acc + w, rf) by {
                    assert(sections_loaded(mb, base, bytes@, rest, mf, w, rf));
                }
            }
        } else if raw_size != 0 {
            let mut warning = "section ".to_owned();
            push_str(&mut warning, name.as_str());
            push_str(&mut warning, " has out-of-range raw data");
            let ghost wv = warning@;
            push_text(warnings, warning);
            proof {
                assert(raw_range(bytes@, rest[0]) is None);
                assert(wv == "section "@ + section_name(rest[0].0) + " has out-of-range raw data"@);
                assert forall|mf: Memory, w: Seq<Seq<char>>, rf: Result<(), DynamicError>|
                    #[trigger] sections_loaded(m1, base, bytes@, sv.skip(i + 1), mf, w, rf) implies sections_loaded(m0, base, bytes@, sv, mf, acc.push(wv) + w, rf) by {
                    let ww = seq![wv] + w;
                    assert(ww.drop_first() =~= w);
                    assert(sections_loaded(mb, base, bytes@, rest, mf, ww, rf));
                    assert(acc + ww =~= acc.push(wv) + w);
                }
                acc = acc.push(wv);
            }
        } else {
            proof {
                assert(raw_range(bytes@, rest[0]) is None);
                assert forall|mf: Memory, w: Seq<Seq<char>>, rf: Result<(), DynamicError>|
                    #[trigger] sections_loaded(m1, base, bytes@, sv.skip(i + 1), mf, w, rf) implies sections_loaded(m0, base, bytes@, sv, mf, acc + w, rf) by {
                    assert(sections_loaded(mb, base, bytes@, rest, mf, w, rf));
                }
            }
        }
        i = i + 1;
    }
    proof {
        assert(sv.skip(i as int) =~= Seq::<SectionFacts32>::empty());
        assert(sections_loaded(*memory, base, bytes@, sv.skip(i as int), *memory, Seq::empty(), Ok::<(), DynamicError>(())));
        assert(acc + Seq::<Seq<char>>::empty() =~= acc);
    }
    Ok(())
}

/// Import stubs are handed out in order: the `k`-th bound import, counting
/// from position `index`, gets `API_STUB_BASE + (index + k) * 0x100`, so
/// the stubs are distinct and increasing, and at most 4096 are bound.
pub proof fn law_import_stubs_in_order(
    m0: Memory,
    base: u32,
    imps: Seq<(Seq<char>, Seq<char>, usize)>,
    index: nat,
    m: Memory,
    stubs: Seq<(u32, Seq<char>, Seq<char>, usize)>,
    warns: Seq<Seq<char>>,
    r: Result<(), DynamicError>,
)
    requires
        imports_loaded(m0, base, imps, index, m, stubs, warns, r),
        r is Ok,
    ensures
        forall|k: int| 0 <= k < stubs.len() ==> (#[trigger] stubs[k]).0 == API_STUB_BASE + (index + k) * 0x100,
        stubs.len() <= imps.len(),
        stubs.len() > 0 ==> index + stubs.len() <= 4096,
    decreases imps.len(),
{
    if imps.len() == 0 || index >= 4096 {
    } else {
        let imp = imps[0];
        let slot = imp.2 as u32;
        if base + slot <= u32::MAX {
            let (m1, r1) = choose|m1: Memory, r1: Result<(), DynamicError>| #[trigger] forced(m0, m1, (base + slot) as u32, le_bytes(((API_STUB_BASE + index * 0x100) as u32) as nat, 4), r1) && match r1 {
                Err(e) => r == Err::<(), DynamicError>(e),
                Ok(_) => stubs.len() >= 1 && stubs[0] == ((API_STUB_BASE + index * 0x100) as u32, imp.1, imp.0, argument_count_spec(imp.0))
                    && imports_loaded(m1, base, imps.drop_first(), index + 1, m, stubs.drop_first(), warns, r),
            };
            law_import_stubs_in_order(m1, base, imps.drop_first(), index + 1, m, stubs.drop_first(), warns, r);
            assert forall|k: int| 0 <= k < stubs.len() implies (#[trigger] stubs[k]).0 == API_STUB_BASE + (index + k) * 0x100 by {
                if k > 0 {
                    assert(stubs[k] == stubs.drop_first()[k - 1]);
                }
            }
        }
    }
}

/// The views of import bindings.
pub open spec fn stub_views(v: Seq<(u32, ApiImport)>) -> Seq<(u32, Seq<char>, Seq<char>, usize)> {
    v.map_values(|e: (u32, ApiImport)| stub_view(e))
}

/// Binds the imports to stubs, writing each stub's address into its
/// import-address-table slot.
fn bind_imports(
    memory: &mut Memory,
    base: u32,
    imps: &Vec<(String, String, usize)>,
    stubs: &mut Vec<(u32, ApiImport)>,
    warnings: &mut Vec<String>,
) -> (r: Result<(), DynamicError>)
    requires
        old(memory).wf(),
        old(stubs)@.len() == 0,
    ensures
        final(memory).wf(),
        exists|st: Seq<(u32, Seq<char>, Seq<char>, usize)>, w: Seq<Seq<char>>|
            #[trigger] imports_loaded(*old(memory), base, import_views(imps@), 0, *final(memory), st, w, r)
            && (r is Ok ==> stub_views(final(stubs)@) == st && texts(final(warnings)@) == texts(old(warnings)@) + w),
{
    let ghost m0 = *memory;
    let ghost iv = import_views(imps@);
    let ghost mut acc: Seq<Seq<char>> = Seq::empty();
    let mut i: usize = 0;
    assert(iv.skip(0) =~= iv);
    assert(texts(warnings@) =~= texts(old(warnings)@) + acc);
    assert(stub_views(stubs@) =~= Seq::<(u32, Seq<char>, Seq<char>, usize)>::empty());
    while i < imps.len()
        invariant
            memory.wf(),
            i <= imps@.len(),
            iv == import_views(imps@),
            m0 == *old(memory),
            texts(warnings@) == texts(old(warnings)@) + acc,
            acc.len() == 0,
            forall|mf: Memory, st: Seq<(u32, Seq<char>, Seq<char>, usize)>, w: Seq<Seq<char>>, rf: Result<(), DynamicError>|
                #[trigger] imports_loaded(*memory, base, iv.skip(i as int), i as nat, mf, st, w, rf)
                    ==> imports_loaded(m0, base, iv, 0, mf, stub_views(stubs@) + st, w, rf),
        decreases imps@.len() - i,
    {
        let ghost mb = *memory;
        let ghost rest = iv.skip(i as int);
        let ghost before = stubs@;
        assert(rest[0] == iv[i as int]);
        assert(rest.drop_first() =~= iv.skip(i + 1));
        if i >= 4096 {
            push_text(warnings, "import table truncated at 4096 functions".to_owned());
            proof {
                let w = seq!["import table truncated at 4096 functions"@];
                assert(imports_loaded(mb, base, rest, i as nat, *memory, Seq::empty(), w, Ok::<(), DynamicError>(())));
                assert(stub_views(stubs@) + Seq::<(u32, Seq<char>, Seq<char>, usize)>::empty() =~= stub_views(stubs@));
                assert(imports_loaded(m0, base, iv, 0, *memory, stub_views(stubs@), w, Ok::<(), DynamicError>(())));
                assert(texts(warnings@) =~= texts(old(warnings)@) + w);
            }
            return Ok(());
        }
        let name = &imps[i].0;
        let dll = &imps[i].1;
        let offset = imps[i].2;
        assert(rest[0] == (name@, dll@, offset));
        let stub: u32 = API_STUB_BASE + (i as u32) * 0x100;
        assert(stub == (API_STUB_BASE + i * 0x100) as u32);
        let slot = offset as u32;
        if base as u64 + slot as u64 > u32::MAX as u64 {
            let e = DynamicError::InvalidPe("IAT address overflow".to_owned());
            proof {
                assert(imports_loaded(mb, base, rest, i as nat, *memory, Seq::empty(), Seq::empty(), Err::<(), DynamicError>(e)));
                assert(imports_loaded(m0, base, iv, 0, *memory, stub_views(stubs@) + Seq::empty(), Seq::empty(), Err::<(), DynamicError>(e)));
            }
            return Err(e);
        }
        let slot_address = base + slot;
        let bytes = to_le_bytes_u64(stub as u64, 4);
        let written = memory.write_force(slot_address, bytes.as_slice());
        assert(forced(mb, *memory, (base + slot) as u32, le_bytes(stub as nat, 4), written));
        match written {
            Err(e) => {
                proof {
                    assert(imports_loaded(mb, base, rest, i as nat, *memory, Seq::empty(), Seq::empty(), Err::<(), DynamicError>(e)));
                    assert(imports_loaded(m0, base, iv, 0, *memory, stub_views(stubs@) + Seq::empty(), Seq::empty(), Err::<(), DynamicError>(e)));
                }
                return Err(e);
            },
            Ok(()) => {},
        }
        let count = argument_count(name.as_str());
        let entry = (stub, ApiImport { module: dll.clone(), name: name.clone(), argument_count: count });
        let ghost ev = stub_view(entry);
        stubs.push(entry);
        proof {
            assert(ev == (stub, rest[0].1, rest[0].0, argument_count_spec(rest[0].0)));
            assert(stub_views(stubs@) =~= stub_views(before).push(ev));
        }
        let ghost i0 = i;
        let ghost m1 = *memory;
        i = i + 1;
        proof {
            assert forall|mf: Memory, st: Seq<(u32, Seq<char>, Seq<char>, usize)>, w: Seq<Seq<char>>, rf: Result<(), DynamicError>|
                #[trigger] imports_loaded(m1, base, iv.skip(i as int), i as nat, mf, st, w, rf)
                    implies imports_loaded(m0, base, iv, 0, mf, stub_views(stubs@) + st, w, rf) by {
                let st2 = seq![ev] + st;
                assert(st2.drop_first() =~= st);
                assert(st2[0] == ev);
                assert(rest.drop_first() =~= iv.skip(i as int));
                assert((i0 + 1) as nat == i as nat);
                assert(forced(mb, m1, (base + slot) as u32, le_bytes(stub as nat, 4), Ok::<(), DynamicError>(())));
                assert(imports_loaded(mb, base, rest, i0 as nat, mf, st2, w, rf));
                assert(stub_views(before) + st2 =~= stub_views(stubs@) + st);
            }
        }
    }
    proof {
        assert(iv.skip(i as int) =~= Seq::<(Seq<char>, Seq<char>, usize)>::empty());
        assert(imports_loaded(*memory, base, iv.skip(i as int), i as nat, *memory, Seq::empty(), Seq::empty(), Ok::<(), DynamicError>(())));
        assert(stub_views(stubs@) + Seq::<(u32, Seq<char>, Seq<char>, usize)>::empty() =~= stub_views(stubs@));
        assert(texts(warnings@) =~= texts(old(warnings)@) + Seq::<Seq<char>>::empty());
    }
    Ok(())
}

/// A parse result as values.
pub open spec fn header_view(h: Result<(bool, u16, Option<u32>, u64, u32), String>) -> Result<(bool, u16, Option<u32>, u64, u32), Seq<char>> {
    match h {
        Ok(v) => Ok(v),
        Err(e) => Err(e@),
    }
}

/// Loads a PE32 image from what the parser read from `bytes`: its header
/// facts, sections and imports.
pub fn load_from(
    bytes: &[u8],
    header: Result<(bool, u16, Option<u32>, u64, u32), String>,
    sections: &Vec<(Option<String>, u32, u32, u32, u32, u32)>,
    imports: &Vec<(String, String, usize)>,
) -> (r: Result<LoadedImage, DynamicError>)
    ensures
        load_outcome(bytes@, header_view(header), section_views(sections@), import_views(imports@), r),
        r matches Ok(li) ==> li.memory.wf(),
{
    let (is_64, machine, size_of_headers, image_base, entry) = match header {
        Ok(h) => h,
        Err(message) => return Err(DynamicError::InvalidPe(message)),
    };
    if is_64 || machine != 0x14c {
        return Err(DynamicError::UnsupportedTarget("dynamic analysis currently supports PE32/x86 executables only".to_owned()));
    }
    let soh = match size_of_headers {
        Some(v) => v,
        None => return Err(DynamicError::InvalidPe("missing optional header".to_owned())),
    };
    if image_base > u32::MAX as u64 {
        return Err(DynamicError::InvalidPe("image base does not fit PE32".to_owned()));
    }
    if image_base + entry as u64 > u32::MAX as u64 {
        return Err(DynamicError::InvalidPe("entry point overflow".to_owned()));
    }
    let base = image_base as u32;
    let entry_point = base + entry;
    assert(entry_point == (image_base + entry) as u32);
    let a: usize = if soh < 0x200 { 0x200 } else { soh as usize };
    let b: usize = if bytes.len() < 0x200 { 0x200 } else { bytes.len() };
    let hs: usize = if a < b { a } else { b };
    assert(hs == header_size(soh, bytes@.len()));
    let shown_len: usize = if hs < bytes.len() { hs } else { bytes.len() };
    let mut memory = Memory::new();
    let ghost m0 = memory;
    let mut warnings: Vec<String> = Vec::new();
    let r1 = memory.map(base, align_page(hs), Permissions { read: true, write: false, execute: false }, "PE headers".to_owned());
    let ghost m1 = memory;
    assert(Memory::map_outcome(m0, m1, base, align_page_spec(hs), Permissions { read: true, write: false, execute: false }, "PE headers"@, r1));
    if let Err(e) = r1 {
        return Err(e);
    }
    let r2 = memory.write_force(base, vstd::slice::slice_subrange(bytes, 0, shown_len));
    let ghost m2 = memory;
    assert(forced(m1, m2, base, header_bytes(bytes@, hs), r2));
    if let Err(e) = r2 {
        return Err(e);
    }
    let r3 = map_sections(&mut memory, base, bytes, sections, &mut warnings);
    let ghost m3 = memory;
    let ghost w1 = choose|w: Seq<Seq<char>>| #[trigger] sections_loaded(m2, base, bytes@, section_views(sections@), m3, w, r3)
        && (r3 is Ok ==> texts(warnings@) == texts(Seq::<String>::empty()) + w);
    assert(sections_loaded(m2, base, bytes@, section_views(sections@), m3, w1, r3));
    if let Err(e) = r3 {
        let ghost rr = Err::<LoadedImage, DynamicError>(e);
        assert(after_headers(bytes@, base, entry_point, section_views(sections@), import_views(imports@), m2, rr));
        assert(mapped_image(bytes@, base, entry_point, hs, section_views(sections@), import_views(imports@), rr));
        return Err(e);
    }
    let r4 = memory.map(STACK_BASE, STACK_SIZE, Permissions { read: true, write: true, execute: false }, "thread stack".to_owned());
    let ghost m4 = memory;
    assert(Memory::map_outcome(m3, m4, STACK_BASE, STACK_SIZE, Permissions { read: true, write: true, execute: false }, "thread stack"@, r4));
    if let Err(e) = r4 {
        assert(after_sections(base, entry_point, import_views(imports@), m3, w1, Err::<LoadedImage, DynamicError>(e)));
        assert(after_headers(bytes@, base, entry_point, section_views(sections@), import_views(imports@), m2, Err::<LoadedImage, DynamicError>(e)));
        return Err(e);
    }
    let mut stubs: Vec<(u32, ApiImport)> = Vec::new();
    let ghost wb = warnings@;
    let r5 = bind_imports(&mut memory, base, imports, &mut stubs, &mut warnings);
    let ghost m5 = memory;
    proof {
        let (st, w2) = choose|st: Seq<(u32, Seq<char>, Seq<char>, usize)>, w: Seq<Seq<char>>|
            #[trigger] imports_loaded(m4, base, import_views(imports@), 0, m5, st, w, r5)
            && (r5 is Ok ==> stub_views(stubs@) == st && texts(warnings@) == texts(wb) + w);
        assert(imports_loaded(m4, base, import_views(imports@), 0, m5, st, w2, r5));
        if r5 is Ok {
            assert(texts(Seq::<String>::empty()) =~= Seq::<Seq<char>>::empty());
            assert(texts(wb) == w1);
            assert(stub_views(stubs@) == st);
            assert(texts(warnings@) == w1 + w2);
        }
    }
    if let Err(e) = r5 {
        proof {
            let rr = Err::<LoadedImage, DynamicError>(e);
            assert(after_stack(base, entry_point, import_views(imports@), m4, w1, rr));
            assert(after_sections(base, entry_point, import_views(imports@), m3, w1, rr));
            assert(after_headers(bytes@, base, entry_point, section_views(sections@), import_views(imports@), m2, rr));
        }
        return Err(e);
    }
    let image = LoadedImage { memory, image_base: base, entry_point, imports: stubs, warnings };
    proof {
        let rr = Ok::<LoadedImage, DynamicError>(image);
        assert(after_stack(base, entry_point, import_views(imports@), m4, w1, rr));
        assert(after_sections(base, entry_point, import_views(imports@), m3, w1, rr));
        assert(after_headers(bytes@, base, entry_point, section_views(sections@), import_views(imports@), m2, rr));
    }
    Ok(image)
}

/// Loads a PE32/x86 executable: goblin parses it, and `load_from` maps it.
pub fn load(bytes: &[u8]) -> (r: Result<LoadedImage, DynamicError>)
    ensures
        load_outcome(bytes@, pe_header_of(bytes@), pe_sections_of(bytes@), pe_imports_of(bytes@), r),
        r matches Ok(li) ==> li.memory.wf(),
{
    let header = pe_header(bytes);
    let sections = pe_sections(bytes);
    let imports = pe_imports(bytes);
    proof {
        match header {
            Ok(_) => {},
            Err(_) => {},
        }
    }
    load_from(bytes, header, &sections, &imports)
}

} // verus!
