use elf_loader::object::has_symtab;
use elf_loader::elf::{
    ElfRelType, ElfShdr, ElfSymbol, REL_SYMBOLIC, R_X86_64_32, R_X86_64_GOTPCREL, R_X86_64_PC32,
    R_X86_64_PLT32, SHF_ALLOC, SHF_EXECINSTR, SHF_WRITE, SHT_NOBITS, SHT_PROGBITS, SHT_RELA,
    SHT_STRTAB, SHT_SYMTAB, STB_GLOBAL, STB_LOCAL, STT_FUNC,
};
use elf_loader::error::Error;
use elf_loader::layout::PAGE_SIZE;
use elf_loader::relocation::dynamic::Target;
use elf_loader::relocation::lookup::SymbolMap;
use elf_loader::relocation::object_reloc::relocate_object;
use elf_loader::segment::grouping::ShdrSegments;
use elf_loader::segment::section::{create_got_shdr, create_plt_shdr, GotEntry, PltGotSection};
use elf_loader::segment::ElfSegments;
use elf_loader::symbol::{ElfStringTable, SymbolTable};

fn sections() -> Vec<ElfShdr> {
    let ax = (SHF_ALLOC | SHF_EXECINSTR) as usize;
    let wa = (SHF_ALLOC | SHF_WRITE) as usize;
    vec![
        ElfShdr::new(0, 0, 0, 0, 0, 0, 0, 0, 0, 0),
        ElfShdr::new(1, SHT_PROGBITS, ax, 0, 0x40, 0x20, 0, 0, 16, 0),
        ElfShdr::new(7, SHT_PROGBITS, wa, 0, 0x60, 0x10, 0, 0, 8, 0),
        ElfShdr::new(13, SHT_NOBITS, wa, 0, 0x70, 0x30, 0, 0, 8, 0),
        ElfShdr::new(18, SHT_RELA, 0, 0, 0x70, 48, 5, 1, 8, 24),
        ElfShdr::new(28, SHT_SYMTAB, 0, 0, 0xa0, 48, 6, 0, 8, 24),
        ElfShdr::new(36, SHT_STRTAB, 0, 0, 0xd0, 8, 0, 0, 1, 0),
    ]
}

#[test]
fn sections_are_laid_out_inside_the_image() {
    let mut shdrs = sections();
    let before = shdrs.clone();
    let mut layout = ShdrSegments::new(&mut shdrs, false).unwrap();
    assert_eq!(layout.total_size % PAGE_SIZE, 0);
    assert!(layout.total_size > 0);
    for (i, sh) in shdrs.iter().enumerate() {
        assert_eq!(sh.sh_size, before[i].sh_size);
        if sh.sh_size != 0 {
            assert!(sh.sh_addr + sh.sh_size <= layout.total_size);
            if sh.sh_addralign > 1 {
                assert_eq!(sh.sh_addr % sh.sh_addralign, 0);
            }
        }
    }
    let text = shdrs[1];
    let data = shdrs[2];
    assert!(text.sh_addr + text.sh_size <= data.sh_addr || data.sh_addr + data.sh_size <= text.sh_addr);
    let p = layout.take_pltgot().unwrap();
    assert_eq!(p.got_size, 2 * 8);
    assert_eq!(p.pltgot_size, 2 * 8);
    assert!(p.got_base + p.got_size <= layout.total_size);
    assert!(layout.take_pltgot().is_none());
}

#[test]
fn unsupported_alignment_is_refused() {
    let mut shdrs = sections();
    shdrs[1].sh_addralign = 3;
    let before = shdrs.clone();
    assert!(matches!(ShdrSegments::new(&mut shdrs, false), Err(Error::ParseShdr { .. })));
    assert_eq!(shdrs, before);
}

#[test]
fn large_power_of_two_alignment_is_laid_out() {
    let mut shdrs = sections();
    shdrs[3].sh_addralign = 0x4000;
    let seg = ShdrSegments::new(&mut shdrs, false).unwrap();
    assert_eq!(shdrs[3].sh_addr % 0x4000, 0);
    assert!(shdrs[3].sh_addr as u64 + shdrs[3].sh_size as u64 <= seg.total_size as u64);
}

#[test]
fn table_sections_are_sized_for_the_entries() {
    let got = create_got_shdr(3);
    assert_eq!(got.sh_size, 24);
    assert_eq!(got.sh_type, SHT_NOBITS);
    let (pltgot, plt) = create_plt_shdr(3, true);
    assert_eq!(pltgot.sh_size, 24);
    assert_eq!(plt.sh_size, 3 * 16 + 16);
    assert_eq!(plt.sh_entsize, 16);
}

const BASE: usize = 0x40000;

fn tables() -> PltGotSection {
    let got = ElfShdr::new(0, SHT_NOBITS, 0, BASE + 0x1000, 0, 16, 0, 0, 16, 8);
    let plt = ElfShdr::new(0, SHT_NOBITS, 0, BASE + 0x1100, 0, 16 + 32, 0, 0, 8, 16);
    let pltgot = ElfShdr::new(0, SHT_NOBITS, 0, BASE + 0x1200, 0, 16, 0, 0, 8, 8);
    PltGotSection::new(&got, &plt, &pltgot, false)
}

fn target() -> Target {
    let f = ElfSymbol { st_name: 1, st_info: (STB_LOCAL << 4) | STT_FUNC, st_other: 0, st_shndx: 1, st_value: 0x100, st_size: 0 };
    let g = ElfSymbol { st_name: 3, st_info: (STB_GLOBAL << 4) | STT_FUNC, st_other: 0, st_shndx: 0, st_value: 0, st_size: 0 };
    let symtab = SymbolTable::new(vec![ElfSymbol { st_name: 0, st_info: 0, ..f }, f, g], ElfStringTable::new(b"\0f\0g\0".to_vec()));
    Target { id: 1, name: "a.o".to_string(), base: BASE, offset: 0, symtab }
}

fn rel(off: usize, sym: u64, ty: u32, addend: i64) -> ElfRelType {
    ElfRelType { r_offset: off, r_info: (sym << 32) | ty as u64, r_addend: addend }
}

#[test]
fn plt_header_precedes_the_entries() {
    let p = tables();
    assert_eq!(p.get_plt_header(), (BASE + 0x1100, 16));
}

#[test]
fn got_slots_are_stable() {
    let mut p = tables();
    let a = p.add_got_entry(5).unwrap();
    let b = p.add_got_entry(5).unwrap();
    let c = p.add_got_entry(6).unwrap();
    assert_eq!(a, GotEntry::Vacant(BASE + 0x1000));
    assert_eq!(b, GotEntry::Occupied(BASE + 0x1000));
    assert_eq!(c, GotEntry::Vacant(BASE + 0x1008));
    assert!(p.add_got_entry(7).is_err());
}

#[test]
fn object_relocations_compute_their_formulas() {
    let mut seg = ElfSegments::new(vec![0u8; 0x2000], BASE);
    let mut p = tables();
    let t = target();
    let lists = vec![vec![
        rel(0x10, 1, REL_SYMBOLIC, 4),
        rel(0x20, 1, R_X86_64_PC32, -4),
        rel(0x30, 1, R_X86_64_GOTPCREL, -4),
        rel(0x40, 1, R_X86_64_32, 0),
    ]];
    relocate_object(&(), &(), &t, &mut seg, &[], &mut p, &lists).unwrap();
    assert_eq!(seg.read_le(0x10, 8).unwrap(), 0x40104);
    assert_eq!(seg.read_le(0x20, 4).unwrap(), 0xdc);
    let got = BASE + 0x1000;
    assert_eq!(seg.read_le(0x1000, 8).unwrap(), 0x40100);
    assert_eq!(seg.read_le(0x30, 4).unwrap(), (got - 4 - (BASE + 0x30)) as u64);
    assert_eq!(seg.read_le(0x40, 4).unwrap(), 0x40100);
}

#[test]
fn far_plt32_goes_through_a_plt_entry() {
    let mut seg = ElfSegments::new(vec![0u8; 0x2000], BASE);
    let mut p = tables();
    let t = target();
    let mut pre = SymbolMap::new();
    pre.insert("g", 0x7fff_0000_0000);
    let lists = vec![vec![rel(0x50, 2, R_X86_64_PLT32, -4)]];
    relocate_object(&pre, &(), &t, &mut seg, &[], &mut p, &lists).unwrap();
    let entry = BASE + 0x1100 + 16;
    assert_eq!(seg.read_le(0x50, 4).unwrap(), (entry - 4 - (BASE + 0x50)) as u64);
    assert_eq!(seg.read_le(0x1200, 8).unwrap(), 0x7fff_0000_0000);
    assert_eq!(seg.read_le(entry - BASE, 4).unwrap(), 0xfa1e0ff3);
}

#[test]
fn object_relocation_errors() {
    let mut seg = ElfSegments::new(vec![0u8; 0x2000], BASE);
    let mut p = tables();
    let t = target();
    let lists = vec![vec![rel(0x10, 2, REL_SYMBOLIC, 0)]];
    assert!(matches!(relocate_object(&(), &(), &t, &mut seg, &[], &mut p, &lists), Err(Error::Relocate { .. })));
    let lists = vec![vec![rel(0x10, 1, 200, 0)]];
    assert!(matches!(relocate_object(&(), &(), &t, &mut seg, &[], &mut p, &lists), Err(Error::Relocate { r_type: 200, .. })));
    assert_eq!(
        relocate_object(&(), &(), &t, &mut seg, &[], &mut p, &lists),
        Err(Error::Relocate { msg: "unsupported relocation type", r_type: 200, r_sym: 1, file: Some("a.o".to_string()) })
    );
}

#[test]
fn symbol_table_is_found() {
    let shdrs = sections();
    assert!(has_symtab(&shdrs));
    assert!(!has_symtab(&shdrs[..5]));
}
