use elf_loader::elf::{
    ElfHeader, ElfPhdr, ElfRelType, ElfShdr, ElfSymbol, EHDR_SIZE, ET_DYN, ET_REL, PT_LOAD,
    REL_RELATIVE, SHT_SYMTAB, STB_GLOBAL, STT_FUNC,
};
use elf_loader::error::Error;
use elf_loader::layout::{rounddown, roundup, PAGE_SIZE};

fn put(buf: &mut Vec<u8>, off: usize, v: u64, n: usize) {
    for k in 0..n {
        buf[off + k] = ((v >> (8 * k)) & 0xff) as u8;
    }
}

fn header(e_type: u16, machine: u16) -> Vec<u8> {
    let mut b = vec![0u8; EHDR_SIZE];
    b[0] = 0x7f;
    b[1] = b'E';
    b[2] = b'L';
    b[3] = b'F';
    b[4] = 2;
    b[5] = 1;
    b[6] = 1;
    put(&mut b, 16, e_type as u64, 2);
    put(&mut b, 18, machine as u64, 2);
    put(&mut b, 20, 1, 4);
    put(&mut b, 24, 0x1040, 8);
    put(&mut b, 32, 64, 8);
    put(&mut b, 40, 0x2000, 8);
    put(&mut b, 54, 56, 2);
    put(&mut b, 56, 3, 2);
    put(&mut b, 58, 64, 2);
    put(&mut b, 60, 7, 2);
    put(&mut b, 62, 6, 2);
    b
}

#[test]
fn rounding_values() {
    assert_eq!(roundup(0x1001, PAGE_SIZE), 0x2000);
    assert_eq!(roundup(0x1000, PAGE_SIZE), 0x1000);
    assert_eq!(roundup(0, PAGE_SIZE), 0);
    assert_eq!(rounddown(0x1fff, PAGE_SIZE), 0x1000);
    assert_eq!(rounddown(0x2000, PAGE_SIZE), 0x2000);
    assert_eq!(roundup(13, 8), 16);
    assert_eq!(rounddown(13, 8), 8);
}

#[test]
fn header_fields_are_decoded() {
    let b = header(ET_DYN, 62);
    let h = ElfHeader::parse(&b).unwrap();
    assert_eq!(h.e_type, ET_DYN);
    assert_eq!(h.e_entry, 0x1040);
    assert_eq!(h.e_phoff, 64);
    assert_eq!(h.e_phnum(), 3);
    assert_eq!(h.e_shnum(), 7);
    assert!(h.is_dylib());
    assert!(h.is_executable());
    assert_eq!(h.phdr_range(), (64, 64 + 3 * 56));
    assert_eq!(h.shdr_range(), (0x2000, 0x2000 + 7 * 64));
}

#[test]
fn header_rejects_bad_magic_class_and_machine() {
    let mut b = header(ET_REL, 62);
    b[0] = 0;
    assert!(matches!(ElfHeader::parse(&b), Err(Error::ParseEhdr { .. })));
    let mut b = header(ET_REL, 62);
    b[4] = 1;
    assert!(matches!(ElfHeader::parse(&b), Err(Error::ParseEhdr { .. })));
    let b = header(ET_REL, 40);
    assert!(matches!(ElfHeader::parse(&b), Err(Error::ParseEhdr { .. })));
    let b = header(ET_REL, 62);
    let h = ElfHeader::parse(&b).unwrap();
    assert!(!h.is_dylib());
}

#[test]
fn program_header_is_decoded() {
    let mut b = vec![0u8; 56];
    put(&mut b, 0, PT_LOAD as u64, 4);
    put(&mut b, 4, 5, 4);
    put(&mut b, 8, 0x1000, 8);
    put(&mut b, 16, 0x401000, 8);
    put(&mut b, 24, 0x401000, 8);
    put(&mut b, 32, 0x200, 8);
    put(&mut b, 40, 0x300, 8);
    put(&mut b, 48, 0x1000, 8);
    let p = ElfPhdr::parse(&b, 0).unwrap();
    assert_eq!(p.p_type, PT_LOAD);
    assert_eq!(p.p_flags, 5);
    assert_eq!(p.p_vaddr, 0x401000);
    assert_eq!(p.p_filesz, 0x200);
    assert_eq!(p.p_memsz, 0x300);
}

#[test]
fn section_header_and_symbol_and_rela_are_decoded() {
    let mut b = vec![0u8; 64];
    put(&mut b, 0, 17, 4);
    put(&mut b, 4, SHT_SYMTAB as u64, 4);
    put(&mut b, 16, 0x500, 8);
    put(&mut b, 32, 48, 8);
    put(&mut b, 40, 3, 4);
    put(&mut b, 48, 8, 8);
    put(&mut b, 56, 24, 8);
    let sh = ElfShdr::parse(&b, 0).unwrap();
    assert_eq!(sh, ElfShdr::new(17, SHT_SYMTAB, 0, 0x500, 0, 48, 3, 0, 8, 24));

    let mut s = vec![0u8; 24];
    put(&mut s, 0, 5, 4);
    s[4] = (STB_GLOBAL << 4) | STT_FUNC;
    put(&mut s, 6, 2, 2);
    put(&mut s, 8, 0x120, 8);
    put(&mut s, 16, 16, 8);
    let sym = ElfSymbol::parse(&s, 0).unwrap();
    assert_eq!(sym.st_name(), 5);
    assert_eq!(sym.st_type(), STT_FUNC);
    assert_eq!(sym.st_bind(), STB_GLOBAL);
    assert_eq!(sym.st_value(), 0x120);
    assert_eq!(sym.st_size(), 16);
    assert!(!sym.is_undef());
    assert!(sym.is_ok_bind());
    assert!(sym.is_ok_type());

    let mut r = vec![0u8; 24];
    put(&mut r, 0, 0x3000, 8);
    put(&mut r, 8, ((7u64) << 32) | REL_RELATIVE as u64, 8);
    put(&mut r, 16, (-16i64) as u64, 8);
    let rel = ElfRelType::parse(&r, 0).unwrap();
    assert_eq!(rel.r_offset(), 0x3000);
    assert_eq!(rel.r_type(), REL_RELATIVE);
    assert_eq!(rel.r_symbol(), 7);
    assert_eq!(rel.r_addend(), -16);
}
