use elf_loader::dynamic::{
    DynamicInfo, ElfDynamic, DF_BIND_NOW, DT_FLAGS, DT_HASH, DT_INIT, DT_INIT_ARRAY, DT_INIT_ARRAYSZ, DT_JMPREL,
    DT_NEEDED, DT_PLTGOT, DT_PLTRELSZ, DT_RELA, DT_RELACOUNT, DT_RELASZ, DT_RPATH, DT_STRSZ, DT_STRTAB, DT_SYMTAB,
};
use elf_loader::error::Error;
use elf_loader::relocation::dynamic::RelativeRel;
use elf_loader::elf::{ElfHeader, ElfPhdr, ET_DYN, ET_EXEC, ET_REL, PT_DYNAMIC, PT_INTERP, PT_LOAD};
use elf_loader::input::ElfBinary;
use elf_loader::loader::{classify, parse_phdr_table, parse_shdr_table, prepare_ehdr, prepare_phdrs, ElfKind, ProgramPlan};
use elf_loader::mmap::{
    from_ret, DefaultMmap, MapFlags, MmapImpl, MmapRequest, ProtFlags, MAP_ANONYMOUS, MAP_PRIVATE,
    PROT_NONE, PROT_READ, PROT_WRITE,
};
use elf_loader::segment::ElfSegments;

fn put(buf: &mut Vec<u8>, off: usize, v: u64, n: usize) {
    for k in 0..n {
        buf[off + k] = ((v >> (8 * k)) & 0xff) as u8;
    }
}

/// A file with one loadable segment of 0x100 bytes from the file and 0x200 in memory.
fn tiny_elf(e_type: u16) -> Vec<u8> {
    let mut b = vec![0u8; 0x100];
    b[0] = 0x7f;
    b[1] = b'E';
    b[2] = b'L';
    b[3] = b'F';
    b[4] = 2;
    b[5] = 1;
    put(&mut b, 16, e_type as u64, 2);
    put(&mut b, 18, 62, 2);
    put(&mut b, 32, 64, 8);
    put(&mut b, 54, 56, 2);
    put(&mut b, 56, 1, 2);
    put(&mut b, 64, PT_LOAD as u64, 4);
    put(&mut b, 68, 5, 4);
    put(&mut b, 64 + 32, 0x100, 8);
    put(&mut b, 64 + 40, 0x200, 8);
    for i in 0xc0..0x100 {
        b[i] = i as u8;
    }
    b
}

fn phdr(p_type: u32) -> ElfPhdr {
    ElfPhdr { p_type, p_flags: 0, p_offset: 0, p_vaddr: 0, p_paddr: 0, p_filesz: 0, p_memsz: 0, p_align: 0 }
}

#[test]
fn objects_are_classified() {
    let b = tiny_elf(ET_DYN);
    let mut h = ElfHeader::parse(&b).unwrap();
    assert_eq!(classify(&h, &[phdr(PT_LOAD), phdr(PT_DYNAMIC)]), ElfKind::Dylib);
    assert_eq!(classify(&h, &[phdr(PT_LOAD), phdr(PT_DYNAMIC), phdr(PT_INTERP)]), ElfKind::Exec);
    assert_eq!(classify(&h, &[phdr(PT_LOAD)]), ElfKind::Exec);
    h.e_type = ET_REL;
    assert_eq!(classify(&h, &[]), ElfKind::Object);
    h.e_type = ET_EXEC;
    assert_eq!(classify(&h, &[phdr(PT_DYNAMIC)]), ElfKind::Exec);
    h.e_type = 0x55;
    assert_eq!(classify(&h, &[]), ElfKind::Exec);
}

#[test]
fn program_image_is_built_from_the_file() {
    let bytes = tiny_elf(ET_DYN);
    let mut reader = ElfBinary::new("tiny.so", &bytes);
    let h = prepare_ehdr(&mut reader).unwrap();
    let phdrs = prepare_phdrs(&h, &mut reader).unwrap();
    assert_eq!(phdrs.len(), 1);
    let mut plan = ProgramPlan::new(&h, phdrs, false).unwrap();
    assert_eq!(plan.len, 0x1000);
    assert_eq!(plan.min_vaddr, 0);
    assert_eq!(plan.fixed, None);
    let image = plan.load(&mut reader, 0x7000_0000).unwrap();
    assert_eq!(image.addr(), 0x7000_0000);
    assert_eq!(image.len(), 0x1000);
    assert_eq!(&image.as_slice()[..0x100], &bytes[..]);
    assert!(image.as_slice()[0x100..].iter().all(|b| *b == 0));
}

#[test]
fn program_without_loadable_segment_is_refused() {
    let bytes = tiny_elf(ET_EXEC);
    let h = ElfHeader::parse(&bytes).unwrap();
    assert!(ProgramPlan::new(&h, vec![phdr(PT_DYNAMIC)], false).is_err());
    let plan = ProgramPlan::new(&h, vec![ElfPhdr { p_vaddr: 0x401000, p_memsz: 0x10, ..phdr(PT_LOAD) }], true).unwrap();
    assert_eq!(plan.fixed, Some(0x401000));
}

#[test]
fn truncated_file_cannot_be_read() {
    let bytes = tiny_elf(ET_DYN);
    let mut reader = ElfBinary::new("short", &bytes[..32]);
    assert!(prepare_ehdr(&mut reader).is_err());
}

#[test]
fn mapping_requests() {
    let prot = ProtFlags::from_bits_retain(PROT_READ);
    let flags = MapFlags::from_bits_retain(MAP_PRIVATE);
    let (req, copy) = MmapImpl::mmap(Some(0x1000), 0x2000, prot, flags, 0, None);
    assert!(copy);
    assert_eq!(req, MmapRequest::Anonymous {
        addr: 0x1000,
        len: 0x2000,
        prot: ProtFlags::from_bits_retain(PROT_WRITE),
        flags: MapFlags::from_bits_retain(MAP_PRIVATE | MAP_ANONYMOUS),
    });
    let (req, copy) = MmapImpl::mmap(None, 0x2000, prot, flags, 0x3000, Some(4));
    assert!(!copy);
    assert_eq!(req, MmapRequest::File { addr: 0, len: 0x2000, prot, flags, fd: 4, offset: 0x3000 });
    let (req, copy) = DefaultMmap::mmap(Some(0x5000), 0x1000, prot, flags, 0, None);
    assert!(copy);
    assert_eq!(req, MmapRequest::Reserved { addr: 0x5000 });
    match DefaultMmap::mmap_reserve(None, 0x4000, true) {
        MmapRequest::Anonymous { prot, .. } => assert_eq!(prot.bits(), PROT_NONE),
        _ => panic!("expected an anonymous mapping"),
    }
    match MmapImpl::mmap_reserve(None, 0x4000, false) {
        MmapRequest::Anonymous { prot, .. } => assert_eq!(prot.bits(), PROT_NONE),
        _ => panic!("expected an anonymous mapping"),
    }
    assert_eq!(from_ret(0x1000, "mmap"), Ok(0x1000));
    assert!(from_ret(usize::MAX - 11, "mmap").is_err());
}

#[test]
fn dynamic_section_is_read_up_to_null() {
    let mut mem = vec![0u8; 0x100];
    let entries: [(u64, u64); 5] = [(DT_NEEDED, 1), (DT_STRTAB, 0x80), (DT_NEEDED, 5), (DT_FLAGS, DF_BIND_NOW), (0, 0)];
    for (k, (t, v)) in entries.iter().enumerate() {
        put(&mut mem, 16 * k, *t, 8);
        put(&mut mem, 16 * k + 8, *v, 8);
    }
    let image = ElfSegments::new(mem, 0x10000);
    let d = ElfDynamic::parse(&image, 0, 0x100).unwrap();
    assert_eq!(d.entries.len(), 4);
    assert_eq!(d.get(DT_STRTAB), Some(0x80));
    assert_eq!(d.get(99), None);
    assert_eq!(d.needed(), vec![1, 5]);
    assert!(d.bind_now());
    assert!(ElfDynamic::parse(&image, 0xf8, 0x100).is_err());
}

fn dyn_image(entries: &[(u64, u64)]) -> ElfSegments {
    let mut mem = vec![0u8; 0x800];
    mem[0x100..0x112].copy_from_slice(b"\0libc.so\0foo\0/opt\0");
    put(&mut mem, 0x218, 9, 4);
    mem[0x218 + 4] = 0x12;
    put(&mut mem, 0x218 + 6, 1, 2);
    put(&mut mem, 0x218 + 8, 0x300, 8);
    put(&mut mem, 0x218 + 16, 8, 8);
    put(&mut mem, 0x280, 1, 4);
    put(&mut mem, 0x284, 2, 4);
    let rels: [(u64, u64, u64); 3] = [(0x400, 8, 0x10), (0x408, (1 << 32) | 1, 0), (0x410, (1 << 32) | 7, 0)];
    for (k, (o, i, a)) in rels.iter().enumerate() {
        put(&mut mem, 0x300 + 24 * k, *o, 8);
        put(&mut mem, 0x300 + 24 * k + 8, *i, 8);
        put(&mut mem, 0x300 + 24 * k + 16, *a, 8);
    }
    for (k, (t, v)) in entries.iter().enumerate() {
        put(&mut mem, 0x700 + 16 * k, *t, 8);
        put(&mut mem, 0x700 + 16 * k + 8, *v, 8);
    }
    ElfSegments::new(mem, 0x10000)
}

fn dyn_entries() -> Vec<(u64, u64)> {
    vec![
        (DT_NEEDED, 1),
        (DT_STRTAB, 0x100),
        (DT_STRSZ, 18),
        (DT_SYMTAB, 0x200),
        (DT_HASH, 0x280),
        (DT_RELA, 0x300),
        (DT_RELASZ, 0x48),
        (DT_JMPREL, 0x330),
        (DT_PLTRELSZ, 0x18),
        (DT_RELACOUNT, 1),
        (DT_RPATH, 13),
        (DT_INIT, 0x500),
        (DT_INIT_ARRAY, 0x510),
        (DT_INIT_ARRAYSZ, 16),
        (DT_PLTGOT, 0x600),
    ]
}

#[test]
fn dynamic_information_is_gathered() {
    let image = dyn_image(&dyn_entries());
    let d = ElfDynamic { entries: dyn_entries() };
    let info = DynamicInfo::new(&d, &image).unwrap();
    assert!(info.lazy);
    assert_eq!(info.needed, vec![b"libc.so".to_vec()]);
    assert_eq!(info.rpath, Some(b"/opt".to_vec()));
    assert_eq!(info.runpath, None);
    assert_eq!(info.init_fn, Some(0x10500));
    assert_eq!(info.init_array, Some((0x10510, 2)));
    assert_eq!(info.fini_fn, None);
    assert_eq!(info.fini_array, None);
    assert_eq!(info.got_plt, Some(0x10600));
    assert_eq!(info.symtab.symbols.len(), 2);
    assert_eq!(info.symtab.symbols[1].st_value, 0x300);
    assert_eq!(info.relocation.dynrel.len(), 1);
    assert_eq!(info.relocation.dynrel[0].r_offset, 0x408);
    assert_eq!(info.relocation.pltrel.len(), 1);
    assert_eq!(info.relocation.pltrel[0].r_offset, 0x410);
    match &info.relocation.relative {
        RelativeRel::Rel(r) => {
            assert_eq!(r.len(), 1);
            assert_eq!(r[0].r_addend, 0x10);
        }
        RelativeRel::Relr(_) => panic!("expected entries"),
    }
}

#[test]
fn dynamic_information_needs_tables_in_the_image() {
    let image = dyn_image(&dyn_entries());
    let without_hash: Vec<(u64, u64)> = dyn_entries().into_iter().filter(|e| e.0 != DT_HASH).collect();
    assert!(matches!(DynamicInfo::new(&ElfDynamic { entries: without_hash }, &image), Err(Error::ParseDynamic { .. })));
    let mut long_strtab = dyn_entries();
    long_strtab[2] = (DT_STRSZ, 0x1000);
    assert!(DynamicInfo::new(&ElfDynamic { entries: long_strtab }, &image).is_err());
    let mut bad_path = dyn_entries();
    bad_path[10] = (DT_RPATH, 0x40);
    assert!(DynamicInfo::new(&ElfDynamic { entries: bad_path }, &image).is_err());
    let mut too_many_relative = dyn_entries();
    too_many_relative[9] = (DT_RELACOUNT, 3);
    assert!(DynamicInfo::new(&ElfDynamic { entries: too_many_relative }, &image).is_err());
}

#[test]
fn header_tables_are_decoded_in_order() {
    let mut buf = vec![0u8; 2 * 56];
    put(&mut buf, 0, PT_LOAD as u64, 4);
    put(&mut buf, 56, PT_DYNAMIC as u64, 4);
    put(&mut buf, 56 + 16, 0x4000, 8);
    let v = parse_phdr_table(&buf, 2).unwrap();
    assert_eq!(v.len(), 2);
    assert_eq!(v[0].p_type, PT_LOAD);
    assert_eq!(v[1].p_type, PT_DYNAMIC);
    assert_eq!(v[1].p_vaddr, 0x4000);
    assert!(matches!(parse_phdr_table(&buf, 3), Err(Error::ParsePhdr { .. })));
    assert_eq!(parse_phdr_table(&buf, 0).unwrap().len(), 0);
    let mut sbuf = vec![0u8; 64];
    put(&mut sbuf, 4, 8, 4);
    let s = parse_shdr_table(&sbuf, 1).unwrap();
    assert_eq!(s[0].sh_type, 8);
    assert!(matches!(parse_shdr_table(&sbuf[..63], 1), Err(Error::ParseShdr { .. })));
}

#[test]
fn shared_library_is_not_loaded_as_executable() {
    let bytes = tiny_elf(ET_DYN);
    let h = ElfHeader::parse(&bytes).unwrap();
    let load = ElfPhdr { p_vaddr: 0x1000, p_memsz: 0x10, ..phdr(PT_LOAD) };
    let r = ProgramPlan::new_exec(&h, vec![load.clone(), phdr(PT_DYNAMIC)], false);
    assert_eq!(r.err(), Some(Error::ParseEhdr { msg: "file type mismatch" }));
    let pie = ProgramPlan::new_exec(&h, vec![load.clone(), phdr(PT_DYNAMIC), phdr(PT_INTERP)], false).unwrap();
    assert_eq!(pie.fixed, None);
    let mut rel = h.clone();
    rel.e_type = ET_REL;
    assert_eq!(ProgramPlan::new_exec(&rel, vec![load.clone()], false).err(), Some(Error::ParseEhdr { msg: "file type mismatch" }));
    let mut exec = h.clone();
    exec.e_type = ET_EXEC;
    assert_eq!(ProgramPlan::new_exec(&exec, vec![load], false).unwrap().fixed, Some(0x1000));
}
