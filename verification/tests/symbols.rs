use elf_loader::elf::{ElfSymbol, SHN_UNDEF, STB_GLOBAL, STB_LOCAL, STB_WEAK, STT_FUNC, STT_OBJECT};
use elf_loader::input::{short_name, ElfBinary, ElfReader};
use elf_loader::relocation::lookup::{bytes_eq, SymbolLookup, SymbolMap};
use elf_loader::symbol::{ElfStringTable, SymbolInfo, SymbolTable};

fn sym(name: u32, bind: u8, ty: u8, shndx: u16, value: usize) -> ElfSymbol {
    ElfSymbol { st_name: name, st_info: (bind << 4) | ty, st_other: 0, st_shndx: shndx, st_value: value, st_size: 8 }
}

/// "\0foo\0bar\0baz\0"
fn table() -> SymbolTable {
    let strtab = b"\0foo\0bar\0baz\0".to_vec();
    let symbols = vec![
        sym(0, STB_LOCAL, 0, SHN_UNDEF, 0),
        sym(1, STB_GLOBAL, STT_FUNC, 1, 0x100),
        sym(5, STB_GLOBAL, STT_OBJECT, SHN_UNDEF, 0),
        sym(9, STB_WEAK, STT_FUNC, 2, 0x300),
        sym(1, STB_GLOBAL, STT_FUNC, 1, 0x999),
    ];
    SymbolTable::new(symbols, ElfStringTable::new(strtab))
}

#[test]
fn string_table_reads_terminated_strings() {
    let t = ElfStringTable::new(b"\0foo\0bar".to_vec());
    assert_eq!(t.get_str(1), Some(b"foo".to_vec()));
    assert_eq!(t.get_str(0), Some(Vec::new()));
    assert_eq!(t.get_str(5), None);
    assert_eq!(t.get_str(100), None);
}

#[test]
fn lookup_by_name_finds_first_match() {
    let t = table();
    assert_eq!(t.count_syms(), 5);
    let s = t.lookup_by_name("foo").unwrap();
    assert_eq!(s.st_value, 0x100);
    assert_eq!(t.lookup_by_name("baz").unwrap().st_value, 0x300);
    assert!(t.lookup_by_name("qux").is_none());
    assert!(t.lookup_by_name("").is_none());
}

#[test]
fn lookup_filter_skips_undefined() {
    let t = table();
    assert!(t.lookup_filter(&SymbolInfo::from_str("bar", None)).is_none());
    assert_eq!(t.lookup_filter(&SymbolInfo::from_str("foo", None)).unwrap().st_value, 0x100);
    assert_eq!(t.lookup_filter(&SymbolInfo::from_str("baz", None)).unwrap().st_value, 0x300);
}

#[test]
fn symbol_idx_gives_name() {
    let t = table();
    let (s, info) = t.symbol_idx(3).unwrap();
    assert_eq!(s.st_value, 0x300);
    assert_eq!(info.name(), b"baz");
    assert!(t.symbol_idx(9).is_none());
}

#[test]
fn symbol_table_parse_reads_entries() {
    let mut bytes = vec![0u8; 48];
    bytes[24] = 1;
    bytes[28] = (STB_GLOBAL << 4) | STT_FUNC;
    bytes[30] = 1;
    bytes[32] = 0x40;
    let t = SymbolTable::parse(&bytes, b"\0f\0".to_vec()).unwrap();
    assert_eq!(t.count_syms(), 2);
    assert_eq!(t.lookup_by_name("f").unwrap().st_value, 0x40);
}

#[test]
fn symbol_map_finds_added_names() {
    let mut m = SymbolMap::new();
    m.insert("malloc", 0x1234);
    m.insert("free", 0x5678);
    m.insert("malloc", 0x9999);
    assert_eq!(m.lookup(b"malloc"), Some(0x1234));
    assert_eq!(m.lookup(b"free"), Some(0x5678));
    assert_eq!(m.lookup(b"calloc"), None);
    assert_eq!(().lookup(b"malloc"), None);
}

#[test]
fn byte_strings_compare() {
    assert!(bytes_eq(b"abc", b"abc"));
    assert!(!bytes_eq(b"abc", b"abd"));
    assert!(!bytes_eq(b"abc", b"ab"));
}

#[test]
fn binary_reader_and_short_name() {
    let data = [1u8, 2, 3, 4, 5];
    let mut b = ElfBinary::new("/usr/lib/liba.so", &data);
    assert_eq!(b.file_name(), "/usr/lib/liba.so");
    assert_eq!(b.shortname(), "liba.so");
    assert_eq!(b.read(1, 3).unwrap(), vec![2, 3, 4]);
    assert!(b.read(3, 3).is_err());
    assert!(b.as_fd().is_none());
    assert_eq!(short_name("liba.so"), "liba.so");
    assert_eq!(short_name("a/b/"), "");
}
