use elf_loader::elf::{
    ElfRelType, ElfSymbol, REL_IRELATIVE, REL_JUMP_SLOT, REL_NONE, REL_RELATIVE, REL_SYMBOLIC, SHN_UNDEF,
    STB_GLOBAL, STT_FUNC,
};
use elf_loader::error::Error;
use elf_loader::relocation::dynamic::{
    relocate, relocate_dynrel, relocate_pltrel, relocate_relative, DynamicRelocation, IfuncFixup,
    RelativeRel, Target,
};
use elf_loader::relocation::handler::SkipTypes;
use elf_loader::relocation::lazy::Relocator;
use elf_loader::relocation::lookup::{ScopeLib, SymbolMap};
use elf_loader::segment::ElfSegments;
use elf_loader::symbol::{ElfStringTable, SymbolTable};

const BASE: usize = 0x10000;

fn rel(off: usize, sym: u64, ty: u32, addend: i64) -> ElfRelType {
    ElfRelType { r_offset: off, r_info: (sym << 32) | ty as u64, r_addend: addend }
}

fn word(seg: &ElfSegments, off: usize) -> u64 {
    seg.read_le(off, 8).unwrap()
}

fn symtab() -> SymbolTable {
    let undef = ElfSymbol { st_name: 1, st_info: (STB_GLOBAL << 4) | STT_FUNC, st_other: 0, st_shndx: SHN_UNDEF, st_value: 0, st_size: 0 };
    let undef_bar = ElfSymbol { st_name: 5, ..undef };
    SymbolTable::new(vec![ElfSymbol { st_name: 0, st_info: 0, ..undef }, undef, undef_bar], ElfStringTable::new(b"\0foo\0bar\0".to_vec()))
}

fn target() -> Target {
    Target { id: 1, name: "liba.so".to_string(), base: BASE, offset: 0, symtab: symtab() }
}

fn image() -> ElfSegments {
    ElfSegments::new(vec![0u8; 0x100], BASE)
}

#[test]
fn relative_entry_writes_base_plus_addend() {
    let mut seg = image();
    let r = RelativeRel::Rel(vec![rel(0x10, 0, REL_RELATIVE, 0x20)]);
    relocate_relative(&target(), &mut seg, &r).unwrap();
    assert_eq!(word(&seg, 0x10), 0x10020);
}

#[test]
fn relative_list_must_start_with_relative_entry() {
    let r = RelativeRel::Rel(vec![rel(0x10, 0, REL_SYMBOLIC, 0x20)]);
    assert!(!r.starts_ok());
    assert!(RelativeRel::Rel(vec![rel(0x10, 0, REL_RELATIVE, 0x20)]).starts_ok());
    assert!(RelativeRel::Rel(vec![]).starts_ok());
    assert!(RelativeRel::Relr(vec![0x10]).starts_ok());
}

#[test]
fn relr_address_and_bitmap_entries() {
    let mut seg = image();
    seg.write_le(0x20, 5, 8).unwrap();
    seg.write_le(0x30, 7, 8).unwrap();
    let r = RelativeRel::Relr(vec![0x20, 0b101]);
    relocate_relative(&target(), &mut seg, &r).unwrap();
    assert_eq!(word(&seg, 0x20), 0x10005);
    assert_eq!(word(&seg, 0x28), 0);
    assert_eq!(word(&seg, 0x30), 0x10007);
}

#[test]
fn relr_outside_image_fails() {
    let mut seg = image();
    let r = RelativeRel::Relr(vec![0x200]);
    assert!(relocate_relative(&target(), &mut seg, &r).is_err());
}

#[test]
fn symbolic_entry_uses_preferred_lookup() {
    let mut seg = image();
    let mut pre = SymbolMap::new();
    pre.insert("foo", 0x5000);
    let mut fixups = Vec::new();
    let mut deps: Vec<bool> = Vec::new();
    relocate_dynrel(&pre, &(), &mut (), &mut (), &target(), &mut seg, &[], &[rel(0x40, 1, REL_SYMBOLIC, 8)], &mut fixups, &mut deps).unwrap();
    assert_eq!(word(&seg, 0x40), 0x5008);
    assert!(fixups.is_empty());
}

#[test]
fn symbolic_entry_found_in_scope_marks_dependency() {
    let mut seg = image();
    let def = ElfSymbol { st_name: 5, st_info: (STB_GLOBAL << 4) | STT_FUNC, st_other: 0, st_shndx: 1, st_value: 0x30, st_size: 0 };
    let lib_tab = SymbolTable::new(vec![ElfSymbol { st_name: 0, st_info: 0, ..def }, def], ElfStringTable::new(b"\0foo\0bar\0".to_vec()));
    let scope = vec![ScopeLib { id: 2, symtab: lib_tab, segments: ElfSegments::new(vec![0u8; 0x100], 0x20000) }];
    let mut fixups = Vec::new();
    let mut deps = vec![false];
    relocate_dynrel(&(), &(), &mut (), &mut (), &target(), &mut seg, &scope, &[rel(0x48, 2, REL_SYMBOLIC, 0)], &mut fixups, &mut deps).unwrap();
    assert_eq!(word(&seg, 0x48), 0x20030);
    assert_eq!(deps, vec![true]);
}

#[test]
fn missing_symbol_and_unknown_type_fail() {
    let mut seg = image();
    let mut fixups = Vec::new();
    let mut deps: Vec<bool> = Vec::new();
    let r = relocate_dynrel(&(), &(), &mut (), &mut (), &target(), &mut seg, &[], &[rel(0x40, 1, REL_SYMBOLIC, 0)], &mut fixups, &mut deps);
    assert!(matches!(r, Err(Error::Relocate { .. })));
    let r = relocate_dynrel(&(), &(), &mut (), &mut (), &target(), &mut seg, &[], &[rel(0x40, 0, 99, 0)], &mut fixups, &mut deps);
    assert!(matches!(r, Err(Error::Relocate { r_type: 99, .. })));
    assert_eq!(
        r,
        Err(Error::Relocate { msg: "Unhandled relocation", r_type: 99, r_sym: 0, file: Some("liba.so".to_string()) })
    );
}

#[test]
fn irelative_entry_is_left_to_the_host() {
    let mut seg = image();
    let mut fixups = Vec::new();
    let mut deps: Vec<bool> = Vec::new();
    relocate_dynrel(&(), &(), &mut (), &mut (), &target(), &mut seg, &[], &[rel(0x50, 0, REL_IRELATIVE, 0x80)], &mut fixups, &mut deps).unwrap();
    assert_eq!(fixups, vec![IfuncFixup { place: 0x50, resolver: 0x10080, addend: 0 }]);
}

#[test]
fn lazy_jump_slot_moves_by_base() {
    let mut seg = image();
    seg.write_le(0x60, 0x1234, 8).unwrap();
    let mut fixups = Vec::new();
    let mut deps: Vec<bool> = Vec::new();
    relocate_pltrel(&(), &(), &mut (), &mut (), &target(), &mut seg, &[], true, &[rel(0x60, 1, REL_JUMP_SLOT, 0)], &mut fixups, &mut deps).unwrap();
    assert_eq!(word(&seg, 0x60), 0x11234);
}

#[test]
fn eager_jump_slot_without_symbol_is_left() {
    let mut seg = image();
    seg.write_le(0x60, 0x1234, 8).unwrap();
    let mut fixups = Vec::new();
    let mut deps: Vec<bool> = Vec::new();
    relocate_pltrel(&(), &(), &mut (), &mut (), &target(), &mut seg, &[], false, &[rel(0x60, 1, REL_JUMP_SLOT, 0)], &mut fixups, &mut deps).unwrap();
    assert_eq!(word(&seg, 0x60), 0x1234);
    let mut pre = SymbolMap::new();
    pre.insert("foo", 0x7000);
    relocate_pltrel(&pre, &(), &mut (), &mut (), &target(), &mut seg, &[], false, &[rel(0x60, 1, REL_JUMP_SLOT, 0)], &mut fixups, &mut deps).unwrap();
    assert_eq!(word(&seg, 0x60), 0x7000);
}

#[test]
fn entries_are_split_into_lists() {
    let dynrel = vec![rel(0x10, 0, REL_RELATIVE, 1), rel(0x18, 1, REL_SYMBOLIC, 0), rel(0x20, 1, REL_JUMP_SLOT, 0)];
    let pltrel = vec![rel(0x20, 1, REL_JUMP_SLOT, 0)];
    let d = DynamicRelocation::new(Some(pltrel.clone()), Some(dynrel.clone()), None, Some(1), true);
    match &d.relative {
        RelativeRel::Rel(r) => assert_eq!(r.len(), 1),
        RelativeRel::Relr(_) => panic!("expected entries"),
    }
    assert_eq!(d.dynrel, vec![dynrel[1]]);
    assert_eq!(d.pltrel, pltrel);
    assert!(!d.is_empty());
    assert!(DynamicRelocation::can_split(&Some(pltrel.clone()), &Some(dynrel.clone()), &None, Some(1), true));
    assert!(!DynamicRelocation::can_split(&None, &Some(dynrel.clone()), &None, Some(4), false));
    assert!(!DynamicRelocation::can_split(&Some(vec![rel(0x20, 1, REL_JUMP_SLOT, 0); 3]), &Some(dynrel), &None, Some(1), true));
}

#[test]
fn relocate_without_entries_changes_nothing() {
    let mut seg = image();
    let d = DynamicRelocation::new(None, None, None, None, false);
    assert!(d.is_empty());
    let out = relocate(&(), &(), &mut (), &mut (), &target(), &mut seg, &[], false, &d).unwrap();
    assert!(out.fixups.is_empty());
    assert!(!out.protect_relro);
    assert!(!out.lazy_setup);
    assert_eq!(seg.as_slice(), &vec![0u8; 0x100][..]);
}

#[test]
fn relocate_applies_all_lists_in_order() {
    let mut seg = image();
    let mut pre = SymbolMap::new();
    pre.insert("foo", 0x5000);
    let d = DynamicRelocation::new(
        Some(vec![rel(0x30, 1, REL_JUMP_SLOT, 0)]),
        Some(vec![rel(0x10, 0, REL_RELATIVE, 4), rel(0x18, 1, REL_SYMBOLIC, 2)]),
        None,
        Some(1),
        false,
    );
    let out = relocate(&pre, &(), &mut (), &mut (), &target(), &mut seg, &[], false, &d).unwrap();
    assert_eq!(word(&seg, 0x10), 0x10004);
    assert_eq!(word(&seg, 0x18), 0x5002);
    assert_eq!(word(&seg, 0x30), 0x5000);
    assert!(out.protect_relro);
}

#[test]
fn pre_handler_takes_over_listed_types() {
    let mut seg = image();
    let mut fixups = Vec::new();
    let mut deps: Vec<bool> = Vec::new();
    let mut skip = SkipTypes { types: vec![REL_SYMBOLIC] };
    relocate_dynrel(&(), &(), &mut skip, &mut (), &target(), &mut seg, &[], &[rel(0x40, 1, REL_SYMBOLIC, 8)], &mut fixups, &mut deps).unwrap();
    assert_eq!(word(&seg, 0x40), 0);
    relocate_dynrel(&(), &(), &mut skip, &mut (), &target(), &mut seg, &[], &[rel(0x48, 0, REL_IRELATIVE, 8)], &mut fixups, &mut deps).unwrap();
    assert_eq!(fixups, vec![IfuncFixup { place: 0x48, resolver: 0x10008, addend: 0 }]);
}

#[test]
fn relative_entry_in_the_dynamic_list_is_unhandled() {
    let mut seg = image();
    let mut fixups = Vec::new();
    let mut deps: Vec<bool> = Vec::new();
    let r = relocate_dynrel(&(), &(), &mut (), &mut (), &target(), &mut seg, &[], &[rel(0x48, 0, REL_RELATIVE, 8)], &mut fixups, &mut deps);
    assert_eq!(
        r,
        Err(Error::Relocate {
            msg: "Unhandled relocation",
            r_type: REL_RELATIVE,
            r_sym: 0,
            file: Some("liba.so".to_string()),
        })
    );
    assert_eq!(word(&seg, 0x48), 0);
}

#[test]
fn post_handler_takes_unknown_types_only() {
    let mut seg = image();
    let mut fixups = Vec::new();
    let mut deps: Vec<bool> = Vec::new();
    let mut post = SkipTypes { types: vec![99, REL_RELATIVE] };
    relocate_dynrel(&(), &(), &mut (), &mut post, &target(), &mut seg, &[], &[rel(0x40, 0, 99, 0), rel(0x48, 0, REL_RELATIVE, 3)], &mut fixups, &mut deps).unwrap();
    assert_eq!(word(&seg, 0x40), 0);
    assert_eq!(word(&seg, 0x48), 0);
    let r = relocate_pltrel(&(), &(), &mut (), &mut (), &target(), &mut seg, &[], false, &[rel(0x50, 0, 99, 0)], &mut fixups, &mut deps);
    assert!(matches!(r, Err(Error::Relocate { r_type: 99, .. })));
    relocate_pltrel(&(), &(), &mut (), &mut post, &target(), &mut seg, &[], false, &[rel(0x50, 0, 99, 0)], &mut fixups, &mut deps).unwrap();
}

#[test]
fn relocator_passes_handlers_on() {
    let mut seg = image();
    let d = DynamicRelocation::new(None, Some(vec![rel(0x18, 1, REL_SYMBOLIC, 2)]), None, Some(0), false);
    let plain = Relocator::new();
    assert!(plain.relocate(&target(), &mut seg, &d, false, false).is_err());
    let with_handler = Relocator::new().post_handler(SkipTypes { types: vec![REL_SYMBOLIC] });
    let (out, ls) = with_handler.relocate(&target(), &mut seg, &d, false, false).unwrap();
    assert!(out.protect_relro);
    assert!(!out.lazy_setup);
    assert!(ls.is_none());
    assert_eq!(word(&seg, 0x18), 0);
}

#[test]
fn lazy_relocation_keeps_the_lazy_scope() {
    let mut seg = image();
    let d = DynamicRelocation::new(Some(vec![rel(0x20, 1, REL_JUMP_SLOT, 0)]), None, None, Some(0), false);
    let (out, ls) = Relocator::new().lazy(true).relocate(&target(), &mut seg, &d, false, false).unwrap();
    assert!(out.lazy_setup);
    assert!(!out.protect_relro);
    let ls = ls.unwrap();
    assert!(ls.libs.is_empty());
    assert!(ls.custom_scope.is_none());
    assert_eq!(word(&seg, 0x20), BASE as u64);
}

#[test]
fn failed_relocation_leaves_later_entries() {
    let mut seg = image();
    let mut fixups = Vec::new();
    let mut deps: Vec<bool> = Vec::new();
    let rels = [rel(0x30, 0, REL_IRELATIVE, 5), rel(0x40, 0, 99, 0), rel(0x48, 0, REL_NONE, 0), rel(0x50, 0, REL_IRELATIVE, 6)];
    let r = relocate_dynrel(&(), &(), &mut (), &mut (), &target(), &mut seg, &[], &rels, &mut fixups, &mut deps);
    assert!(r.is_err());
    assert_eq!(fixups.len(), 1);
    assert_eq!(fixups[0].place, 0x30);
}
