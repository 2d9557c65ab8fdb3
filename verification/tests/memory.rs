use aegis::cpu64::{x64_api_arguments, Cpu64};
use aegis::dynamic_error::DynamicError;
use aegis::memory::{Memory, Permissions};
use aegis::memory64::{Memory64, MAX_EXACT_GUEST_ADDRESS};

#[test]
fn maps_sparse_regions_above_four_gibibytes() {
    let mut memory = Memory64::default();
    let address = 0x0000_0001_4000_0000;
    memory
        .map(address, 0x1000, Permissions::read_write(), "PE64 image".to_string())
        .unwrap();
    memory
        .write_u64(address + 0x100, 0x1122_3344_5566_7788)
        .unwrap();
    assert_eq!(
        memory.read_u64(address + 0x100).unwrap(),
        0x1122_3344_5566_7788
    );
    assert!(memory.was_written(address + 0x100));
    assert!(!memory.was_written(address + 0x108));
    assert!(matches!(
        memory.map(address + 0x800, 0x1000, Permissions::read_only(), "overlap".to_string()),
        Err(DynamicError::OverlappingRegion { .. })
    ));
    assert!(matches!(
        memory.map(
            MAX_EXACT_GUEST_ADDRESS,
            0x1000,
            Permissions::read_only(),
            "unsafe JSON address".to_string()
        ),
        Err(DynamicError::MemoryLimit)
    ));
}

#[test]
fn reads_bounded_utf16_strings_from_sparse_guest_memory() {
    let mut memory = Memory64::default();
    let address = 0x0000_0001_5000_0000;
    memory
        .map(address, 0x1000, Permissions::read_write(), "wide string".to_string())
        .unwrap();
    let bytes: Vec<u8> = "KERNEL32.dll\0"
        .encode_utf16()
        .flat_map(u16::to_le_bytes)
        .collect();
    memory.write(address, &bytes).unwrap();
    assert_eq!(memory.read_wide_string(address, 260), "KERNEL32.dll");
    assert_eq!(memory.read_wide_string(address, 6), "KERNEL");
}

#[test]
fn reads_register_and_stack_arguments_with_the_microsoft_x64_abi() {
    let mut memory = Memory64::default();
    memory
        .map(0x1000, 0x1000, Permissions::read_write(), "ABI stack".to_string())
        .unwrap();
    let mut cpu = Cpu64::default();
    cpu.gpr[1] = 1;
    cpu.gpr[2] = 2;
    cpu.gpr[8] = 3;
    cpu.gpr[9] = 4;
    cpu.set_rsp(0x1100);
    memory.write_u64(0x1120, 5).unwrap();
    memory.write_u64(0x1128, 6).unwrap();
    assert_eq!(
        x64_api_arguments(&cpu, &memory, 6).unwrap(),
        [1, 2, 3, 4, 5, 6]
    );
}

#[test]
fn unreadable_stack_argument_reports_its_address() {
    let mut memory = Memory64::default();
    memory
        .map(0x1000, 0x28, Permissions::read_write(), "short stack".to_string())
        .unwrap();
    let mut cpu = Cpu64::default();
    cpu.set_rsp(0x1000);
    assert_eq!(
        x64_api_arguments(&cpu, &memory, 6),
        Err(DynamicError::MemoryRead { address: 0x1028 })
    );
}

#[test]
fn thirty_two_bit_memory_reads_back_writes_and_strings() {
    let mut memory = Memory::new();
    memory
        .map(0x40_0000, 0x1000, Permissions::read_write(), "image".to_string())
        .unwrap();
    memory.write_u32(0x40_0010, 0xdead_beef).unwrap();
    assert_eq!(memory.read_u32(0x40_0010).unwrap(), 0xdead_beef);
    assert_eq!(memory.read_u16(0x40_0010).unwrap(), 0xbeef);
    assert_eq!(memory.read_u8(0x40_0013).unwrap(), 0xde);
    memory.write(0x40_0100, b"cmd.exe\0tail").unwrap();
    assert_eq!(memory.read_c_string(0x40_0100, 260), "cmd.exe");
    assert_eq!(memory.read_c_string(0x40_0100, 3), "cmd");
    assert!(memory.was_written(0x40_0010));
    assert!(!memory.was_written(0x40_0014));
    assert_eq!(
        memory.read_u32(0x50_0000),
        Err(DynamicError::MemoryRead { address: 0x50_0000 })
    );
    assert_eq!(Permissions::read_write().display(), "rw-");
}

#[test]
fn write_protected_regions_refuse_guest_writes_but_accept_loader_writes() {
    let mut memory = Memory::new();
    memory
        .map(0x1000, 0x100, Permissions::read_only(), "rdata".to_string())
        .unwrap();
    assert_eq!(
        memory.write_u8(0x1000, 7),
        Err(DynamicError::MemoryWrite { address: 0x1000 })
    );
    memory.write_force(0x1000, &[7]).unwrap();
    assert_eq!(memory.read_u8(0x1000).unwrap(), 7);
    assert!(!memory.was_written(0x1000));
    assert_eq!(memory.dirty_regions().len(), 0);
}
