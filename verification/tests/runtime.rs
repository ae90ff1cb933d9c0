use elf_loader::elf::{
    ElfHeader, ElfPhdr, ElfRelType, ElfSymbol, PT_DYNAMIC, PT_GNU_RELRO, PT_INTERP, PT_LOAD, PT_PHDR,
    REL_JUMP_SLOT, REL_SYMBOLIC, SHN_UNDEF, STB_GLOBAL, STT_FUNC, STT_GNU_IFUNC,
};
use elf_loader::error::Error;
use elf_loader::loader::{locate_phdrs, scan_phdrs};
use elf_loader::mmap::{from_ret, MapFlags, MmapRequest, ProtFlags, MAP_ANONYMOUS, MAP_FIXED, MAP_PRIVATE, PROT_EXEC, PROT_READ, PROT_WRITE};
use elf_loader::relocation::lazy::{
    complete_lazy_binding, get_symbol, lazy_binding_slot, prepare_lazy_bind, LazyScope, Relocator,
};
use elf_loader::relocation::lookup::{Resolved, ScopeLib, SymbolLookup, SymbolMap};
use elf_loader::relocation::value::RelocValue;
use elf_loader::segment::{Address, ElfSegment, ElfSegments, FileMapInfo, ELFRelro};
use elf_loader::symbol::{ElfStringTable, SymbolTable};

fn rel(off: usize, sym: u64, ty: u32) -> ElfRelType {
    ElfRelType { r_offset: off, r_info: (sym << 32) | ty as u64, r_addend: 0 }
}

fn lib(base: usize) -> ScopeLib {
    let def = ElfSymbol { st_name: 1, st_info: (STB_GLOBAL << 4) | STT_FUNC, st_other: 0, st_shndx: 1, st_value: 0x40, st_size: 0 };
    let undef = ElfSymbol { st_name: 5, st_shndx: SHN_UNDEF, st_value: 0, ..def };
    let symtab = SymbolTable::new(
        vec![ElfSymbol { st_name: 0, st_info: 0, ..undef }, def, undef],
        ElfStringTable::new(b"\0foo\0bar\0".to_vec()),
    );
    ScopeLib { id: 1, symtab, segments: ElfSegments::new(vec![0u8; 0x100], base) }
}

fn phdr(p_type: u32) -> ElfPhdr {
    ElfPhdr { p_type, p_flags: 0, p_offset: 0, p_vaddr: 0, p_paddr: 0, p_filesz: 0, p_memsz: 0, p_align: 0 }
}

fn segment(map_info: Vec<FileMapInfo>, from_relocatable: bool) -> ElfSegment {
    ElfSegment {
        addr: Address::Absolute(0x7000_0000),
        prot: ProtFlags::from_bits_retain(PROT_READ | PROT_EXEC),
        flags: MapFlags::from_bits_retain(MAP_PRIVATE | MAP_FIXED),
        len: 0x2000,
        zero_size: 0,
        content_size: 0x1800,
        map_info,
        need_copy: false,
        from_relocatable,
    }
}

#[test]
fn lazy_got_names_object_and_resolver() {
    let mut seg = ElfSegments::new(vec![0u8; 0x40], 0x1000);
    prepare_lazy_bind(&mut seg, 0x1010, 0xabc, 0xdef).unwrap();
    assert_eq!(seg.read_le(0x18, 8).unwrap(), 0xabc);
    assert_eq!(seg.read_le(0x20, 8).unwrap(), 0xdef);
    assert_eq!(seg.read_le(0x10, 8).unwrap(), 0);
    assert!(matches!(prepare_lazy_bind(&mut seg, 0x1030, 1, 2), Err(Error::Mmap { .. })));
    assert!(prepare_lazy_bind(&mut seg, usize::MAX - 8, 1, 2).is_err());
}

#[test]
fn lazy_slot_is_a_named_jump_slot() {
    let tab = lib(0x1000).symtab;
    let plt = vec![rel(0x18, 2, REL_JUMP_SLOT), rel(0x20, 0, REL_JUMP_SLOT), rel(0x28, 1, REL_SYMBOLIC)];
    let (place, info) = lazy_binding_slot(&plt, 0, &tab).unwrap();
    assert_eq!(place, 0x18);
    assert_eq!(info.name(), b"bar");
    assert!(matches!(lazy_binding_slot(&plt, 1, &tab), Err(Error::Relocate { .. })));
    assert!(matches!(lazy_binding_slot(&plt, 2, &tab), Err(Error::Relocate { r_type: REL_SYMBOLIC, .. })));
    assert!(lazy_binding_slot(&plt, 3, &tab).is_err());
}

#[test]
fn completing_a_lazy_call_writes_the_slot() {
    let mut seg = ElfSegments::new(vec![0u8; 0x40], 0x1000);
    complete_lazy_binding(&mut seg, 0x18, 0x1234_5678).unwrap();
    assert_eq!(seg.read_le(0x18, 8).unwrap(), 0x1234_5678);
    assert!(complete_lazy_binding(&mut seg, 0x3c, 1).is_err());
}

#[test]
fn loaded_symbol_is_base_plus_value() {
    let l = lib(0x20000);
    assert_eq!(get_symbol(&l, "foo"), Some(Resolved::Addr(0x20040)));
    assert_eq!(get_symbol(&l, "bar"), None);
    assert_eq!(get_symbol(&l, "baz"), None);
}

#[test]
fn lazy_scope_asks_the_caller_first() {
    let mut custom = SymbolMap::new();
    custom.insert("foo", 0x9999);
    let with_custom = LazyScope { libs: vec![lib(0x20000)], custom_scope: Some(custom) };
    assert_eq!(with_custom.lookup(b"foo"), Some(0x9999));
    let plain: LazyScope<SymbolMap> = LazyScope { libs: vec![lib(0x20000), lib(0x30000)], custom_scope: None };
    assert_eq!(plain.lookup(b"foo"), Some(0x20040));
    assert_eq!(plain.lookup(b"bar"), None);
}

fn ifunc_lib(base: usize) -> ScopeLib {
    let mut l = lib(base);
    let def = ElfSymbol { st_name: 1, st_info: (STB_GLOBAL << 4) | STT_GNU_IFUNC, st_other: 0, st_shndx: 1, st_value: 0x80, st_size: 0 };
    l.symtab = SymbolTable::new(vec![ElfSymbol { st_name: 0, st_info: 0, ..def }, def], ElfStringTable::new(b"\0foo\0".to_vec()));
    l
}

#[test]
fn indirect_function_is_given_as_its_resolver() {
    let l = ifunc_lib(0x20000);
    assert_eq!(get_symbol(&l, "foo"), Some(Resolved::Ifunc(0x20080)));
    let scope: LazyScope<SymbolMap> = LazyScope { libs: vec![lib(0x30000), ifunc_lib(0x20000)], custom_scope: None };
    assert_eq!(scope.lookup_resolved("foo"), Some(Resolved::Addr(0x30040)));
    let scope: LazyScope<SymbolMap> = LazyScope { libs: vec![ifunc_lib(0x20000), lib(0x30000)], custom_scope: None };
    assert_eq!(scope.lookup_resolved("foo"), Some(Resolved::Ifunc(0x20080)));
    assert_eq!(scope.lookup_resolved("bar"), None);
    let mut custom = SymbolMap::new();
    custom.insert("foo", 0x9999);
    let scope = LazyScope { libs: vec![ifunc_lib(0x20000)], custom_scope: Some(custom) };
    assert_eq!(scope.lookup_resolved("foo"), Some(Resolved::Addr(0x9999)));
}

#[test]
fn segment_mapped_from_file_or_copied() {
    let one = vec![FileMapInfo { start: 0, filesz: 0x1800, offset: 0x1000 }];
    let mut s = segment(one.clone(), false);
    let req = s.map_request(Some(3));
    assert_eq!(
        req,
        MmapRequest::File {
            addr: 0x7000_0000,
            len: 0x2000,
            prot: ProtFlags::from_bits_retain(PROT_READ | PROT_EXEC),
            flags: MapFlags::from_bits_retain(MAP_PRIVATE | MAP_FIXED),
            fd: 3,
            offset: 0x1000,
        }
    );
    assert!(!s.need_copy);
    assert_eq!(s.protect_request(), None);

    let mut s = segment(one, false);
    assert_eq!(s.map_request(None), MmapRequest::Reserved { addr: 0x7000_0000 });
    assert!(s.need_copy);
    assert_eq!(s.protect_request(), Some((0x7000_0000, 0x2000, ProtFlags::from_bits_retain(PROT_READ | PROT_EXEC))));

    let two = vec![FileMapInfo { start: 0, filesz: 8, offset: 0 }, FileMapInfo { start: 8, filesz: 8, offset: 64 }];
    let mut s = segment(two, true);
    assert_eq!(s.map_request(Some(3)), MmapRequest::Reserved { addr: 0x7000_0000 });
    assert!(s.need_copy);
    assert_eq!(s.protect_request(), Some((0x7000_0000, 0x2000, ProtFlags::from_bits_retain(PROT_READ | PROT_EXEC))));
}

#[test]
fn section_built_segment_is_mapped_writable() {
    let mut s = segment(vec![FileMapInfo { start: 0, filesz: 8, offset: 0 }], true);
    match s.map_request(Some(4)) {
        MmapRequest::File { prot, .. } => assert_eq!(prot, ProtFlags::from_bits_retain(PROT_READ | PROT_WRITE)),
        other => panic!("unexpected request {:?}", other),
    }
    assert!(s.protect_request().is_some());
}

#[test]
fn program_headers_last_of_a_kind_counts() {
    let phdrs = vec![
        ElfPhdr { p_paddr: 0x100, p_memsz: 0x10, ..phdr(PT_DYNAMIC) },
        ElfPhdr { p_vaddr: 0x200, ..phdr(PT_INTERP) },
        ElfPhdr { p_paddr: 0x300, p_memsz: 0x20, ..phdr(PT_DYNAMIC) },
        ElfPhdr { p_vaddr: 0x1000, p_memsz: 0x800, ..phdr(PT_GNU_RELRO) },
        ElfPhdr { p_vaddr: 0x40, p_memsz: 0x38, ..phdr(PT_PHDR) },
    ];
    let info = scan_phdrs(&phdrs, 0x10000).unwrap();
    assert_eq!(info.dynamic, Some((0x300, 0x20)));
    assert_eq!(info.interp, Some(0x200));
    assert_eq!(info.phdr, Some((0x40, 0x38)));
    assert_eq!(info.relro, Some(ELFRelro { addr: 0x11000, len: 0x800 }));
    let none = scan_phdrs(&[phdr(PT_LOAD)], 0).unwrap();
    assert_eq!(none.dynamic, None);
    assert_eq!(none.relro, None);
    let bad = scan_phdrs(&[ElfPhdr { p_vaddr: 0x10, ..phdr(PT_GNU_RELRO) }], usize::MAX - 4);
    assert!(matches!(bad, Err(Error::ParsePhdr { .. })));
}

#[test]
fn program_header_table_is_located() {
    let ehdr = ElfHeader {
        e_type: 3,
        e_machine: 62,
        e_version: 1,
        e_entry: 0,
        e_phoff: 64,
        e_shoff: 0,
        e_flags: 0,
        e_ehsize: 64,
        e_phentsize: 56,
        e_phnum: 2,
        e_shentsize: 64,
        e_shnum: 0,
        e_shstrndx: 0,
    };
    let load = ElfPhdr { p_offset: 0, p_vaddr: 0x400000, p_filesz: 0x1000, p_memsz: 0x1000, ..phdr(PT_LOAD) };
    assert_eq!(locate_phdrs(&ehdr, &[load, phdr(PT_DYNAMIC)]), Some(0x400040));
    let own = ElfPhdr { p_vaddr: 0x500040, ..phdr(PT_PHDR) };
    assert_eq!(locate_phdrs(&ehdr, &[load, own]), Some(0x500040));
    let far = ElfPhdr { p_offset: 0x2000, ..load };
    assert_eq!(locate_phdrs(&ehdr, &[far]), None);
}

#[test]
fn system_call_results_in_the_error_range_fail() {
    assert_eq!(from_ret(0x1000, "mmap").unwrap(), 0x1000);
    assert!(matches!(from_ret(usize::MAX, "mmap"), Err(Error::Mmap { msg: "mmap" })));
    assert!(from_ret(usize::MAX - 4094, "mmap").is_err());
    assert!(from_ret(usize::MAX - 4095, "mmap").is_ok());
}

#[test]
fn lazy_scope_of_a_relocation() {
    let mut custom = SymbolMap::new();
    custom.insert("bar", 0x4242);
    let r = Relocator::new().scope(vec![lib(0x20000)]).lazy_scope(custom);
    let ls = r.into_lazy_scope(true, true).unwrap();
    assert_eq!(ls.lookup(b"bar"), Some(0x4242));
    assert_eq!(ls.lookup(b"foo"), Some(0x20040));
    let mut custom = SymbolMap::new();
    custom.insert("bar", 0x4242);
    let r = Relocator::new().scope(vec![lib(0x20000)]).lazy_scope(custom);
    let ls = r.into_lazy_scope(true, false).unwrap();
    assert_eq!(ls.lookup(b"foo"), None);
    assert!(Relocator::new().into_lazy_scope(false, true).is_none());
}

#[test]
fn read_only_range_is_made_read_only() {
    let relro = ELFRelro { addr: 0x1234, len: 0x100 };
    assert_eq!(relro.relro(), (0x1000, 0x1000, ProtFlags::from_bits_retain(PROT_READ)));
}

#[test]
fn conversion_errors_are_relocation_errors() {
    let big = RelocValue::new(0x1_0000_0000usize);
    assert_eq!(big.to_u32(), Err(Error::Relocate { msg: "value does not fit in 32 bits", r_type: 0, r_sym: 0, file: None }));
    assert!(matches!(big.to_i32(), Err(Error::Relocate { .. })));
    assert_eq!(RelocValue::new(usize::MAX).to_i32().unwrap().0, -1);
    assert_eq!(from_ret(usize::MAX, "mprotect"), Err(Error::Mmap { msg: "mprotect" }));
}

#[test]
fn zero_pages_past_the_content_page_are_mapped() {
    let mut s = segment(vec![], false);
    s.content_size = 0x1800;
    s.zero_size = 0x2000;
    assert_eq!(
        s.zero_tail_request(),
        Some(MmapRequest::Anonymous {
            addr: 0x7000_2000,
            len: 0x1800,
            prot: ProtFlags::from_bits_retain(PROT_READ | PROT_EXEC),
            flags: MapFlags::from_bits_retain(MAP_PRIVATE | MAP_FIXED | MAP_ANONYMOUS),
        })
    );
    s.zero_size = 0x800;
    assert_eq!(s.zero_tail_request(), None);
    s.zero_size = 0;
    assert_eq!(s.zero_tail_request(), None);
    s.content_size = 0x2000;
    s.zero_size = 0x10;
    assert_eq!(
        s.zero_tail_request(),
        Some(MmapRequest::Anonymous {
            addr: 0x7000_2000,
            len: 0x10,
            prot: ProtFlags::from_bits_retain(PROT_READ | PROT_EXEC),
            flags: MapFlags::from_bits_retain(MAP_PRIVATE | MAP_FIXED | MAP_ANONYMOUS),
        })
    );
}
