use aegis::cpu::Cpu;
use aegis::dynamic_error::DynamicError;
use aegis::dynamic_model::{DynamicSeverity, Termination};
use aegis::engine::{memory_termination, printable_preview, protection, Machine, HEAP_BASE};
use aegis::loader::{align_page, argument_count, ApiImport, LoadedImage, STACK_BASE, STACK_SIZE, STACK_TOP};
use aegis::memory::{Memory, Permissions};

const DATA: u32 = 0x0040_0000;

fn machine() -> Machine {
    let mut memory = Memory::new();
    memory.map(STACK_BASE, STACK_SIZE, Permissions::read_write(), "thread stack".to_string()).unwrap();
    memory.map(DATA, 0x1000, Permissions::read_write(), "data".to_string()).unwrap();
    let loaded = LoadedImage {
        memory,
        image_base: DATA,
        entry_point: DATA + 0x100,
        imports: Vec::new(),
        warnings: vec!["loader note".to_string()],
    };
    Machine::start(loaded, 1000, 100).unwrap()
}

fn put(m: &mut Machine, address: u32, bytes: &[u8]) {
    m.memory.write_force(address, bytes).unwrap();
}

#[test]
fn start_sets_up_the_entry_frame() {
    let m = machine();
    assert_eq!(m.cpu.eip, DATA + 0x100);
    assert_eq!(m.cpu.esp, STACK_TOP - 4);
    assert_eq!(m.cpu.ebp, STACK_TOP);
    assert_eq!(m.memory.read_u32(STACK_TOP - 4).unwrap(), 0xffff_fff0);
    assert_eq!(m.virtual_time_ms, 1_000_000);
    assert_eq!(m.next_handle, 0x100);
    assert_eq!(m.heap_next, HEAP_BASE);
    assert_eq!(m.warnings, vec!["loader note".to_string()]);
}

#[test]
fn start_fails_without_a_stack() {
    let loaded = LoadedImage {
        memory: Memory::new(),
        image_base: DATA,
        entry_point: DATA,
        imports: Vec::new(),
        warnings: Vec::new(),
    };
    assert_eq!(
        Machine::start(loaded, 10, 10).err(),
        Some(DynamicError::MemoryWrite { address: (STACK_TOP - 4) as u64 })
    );
}

#[test]
fn time_and_exit_apis() {
    let mut m = machine();
    let (result, summary, shown) = m.emulate_api("gettickcount", &[]).unwrap();
    assert_eq!(result, 1_000_000);
    assert_eq!(summary, "Returned deterministic virtual time");
    assert!(shown.is_empty());
    let (_, summary, shown) = m.emulate_api("sleep", &[25]).unwrap();
    assert_eq!(summary, "Advanced virtual clock by 25 ms");
    assert_eq!(shown, vec!["25"]);
    assert_eq!(m.virtual_time_ms, 1_000_025);
    m.emulate_api("sleep", &[u32::MAX]).unwrap();
    assert_eq!(m.virtual_time_ms, 1_000_025 + 86_400_000);
    let (result, summary, _) = m.emulate_api("exitprocess", &[3]).unwrap();
    assert_eq!(result, 0);
    assert_eq!(summary, "Process exited with code 3");
    assert_eq!(m.termination, Some(Termination::ExitProcess { code: 3 }));
}

#[test]
fn string_arguments_are_read_from_guest_memory() {
    let mut m = machine();
    put(&mut m, DATA, b"kernel32.dll\0");
    put(&mut m, DATA + 0x40, b"powershell.exe -nop\0");
    let (result, summary, shown) = m.emulate_api("loadlibrarya", &[DATA]).unwrap();
    assert_eq!(result, 0x7600_0000);
    assert_eq!(summary, "Modeled loading kernel32.dll");
    assert_eq!(shown, vec!["kernel32.dll"]);
    let (result, summary, shown) = m.emulate_api("winexec", &[DATA + 0x40, 5]).unwrap();
    assert_eq!(result, 33);
    assert_eq!(summary, "Captured process execution request: powershell.exe -nop");
    assert_eq!(shown, vec!["powershell.exe -nop", "5"]);
    assert_eq!(m.processes.len(), 1);
    assert_eq!(m.processes[0].operation, "execute");
    let (_, _, shown) = m.emulate_api("getprocaddress", &[0x1234, DATA]).unwrap();
    assert_eq!(shown, vec!["0x00001234", "kernel32.dll"]);
}

#[test]
fn files_registry_and_network_are_recorded() {
    let mut m = machine();
    put(&mut m, DATA, b"C:\\out.txt\0");
    put(&mut m, DATA + 0x20, b"hi\x01there");
    put(&mut m, DATA + 0x40, b"Software\\Run\0");
    put(&mut m, DATA + 0x60, b"updater\0");
    let (handle, summary, _) = m.emulate_api("createfilea", &[DATA, 0, 0, 0, 0, 0, 0]).unwrap();
    assert_eq!(handle, 0x100);
    assert_eq!(summary, "Opened virtual file C:\\out.txt");
    let (result, summary, shown) = m.emulate_api("writefile", &[handle, DATA + 0x20, 8, DATA + 0x80, 0]).unwrap();
    assert_eq!(result, 1);
    assert_eq!(summary, "Captured 8 bytes written to a virtual file");
    assert_eq!(shown, vec!["handle:0x100", "hi.there"]);
    assert_eq!(m.memory.read_u32(DATA + 0x80).unwrap(), 8);
    assert_eq!(m.filesystem.len(), 2);
    assert_eq!(m.filesystem[1].size, Some(8));
    let (result, _, _) = m.emulate_api("regopenkeyexa", &[0x8000_0001, DATA + 0x40, 0, 0, DATA + 0x90]).unwrap();
    assert_eq!(result, 0);
    assert_eq!(m.memory.read_u32(DATA + 0x90).unwrap(), 0x101);
    let (_, summary, _) = m.emulate_api("regsetvalueexa", &[0x101, DATA + 0x60, 0, 1, DATA, 4]).unwrap();
    assert_eq!(summary, "Set synthetic registry value updater");
    assert_eq!(m.registry[1].key, "handle:0x101\\updater");
    assert_eq!(m.registry[1].value, Some("C:\\o".to_string()));
    let (sent, summary, _) = m.emulate_api("send", &[0x55, DATA, 3, 0]).unwrap();
    assert_eq!(sent, 3);
    assert_eq!(summary, "Captured 3 outbound bytes");
    assert_eq!(m.network[0].destination, "socket:0x55");
}

#[test]
fn connect_reads_a_sockaddr() {
    let mut m = machine();
    put(&mut m, DATA, &[2, 0, 0x1f, 0x90, 10, 1, 2, 3]);
    let (_, summary, _) = m.emulate_api("connect", &[7, DATA, 16]).unwrap();
    assert_eq!(summary, "Captured connection to 10.1.2.3:8080");
    let (_, summary, _) = m.emulate_api("connect", &[7, 0x9000_0000, 16]).unwrap();
    assert_eq!(summary, "Captured connection to 0.0.0.0:0");
}

#[test]
fn virtual_alloc_and_protect_change_memory() {
    let mut m = machine();
    let (address, summary, shown) = m.emulate_api("virtualalloc", &[0, 0x10, 0x1000, 0x04]).unwrap();
    assert_eq!(address, HEAP_BASE);
    assert_eq!(summary, "Allocated 4096 virtual bytes");
    assert_eq!(shown, vec!["0x10000000", "4096", "rw-"]);
    assert_eq!(m.heap_next, HEAP_BASE + 0x2000);
    let (result, summary, _) = m.emulate_api("virtualprotect", &[HEAP_BASE, 0x1000, 0x20, DATA]).unwrap();
    assert_eq!(result, 1);
    assert_eq!(summary, "Changed virtual memory protection to r-x");
    assert_eq!(m.memory.read_u32(DATA).unwrap(), 4);
    let (result, summary, shown) = m.emulate_api("virtualprotect", &[0x7000_0000, 16, 0x40, 0]).unwrap();
    assert_eq!(result, 0);
    assert_eq!(summary, "Virtual protection change failed safely");
    assert_eq!(shown, vec!["0x70000000"]);
    assert_eq!(m.warnings.last().unwrap(), "memory write failed at 0x70000000");
    let (result, summary, _) = m.emulate_api("virtualalloc", &[HEAP_BASE, 0x1000, 0x1000, 0x04]).unwrap();
    assert_eq!(result, 0);
    assert_eq!(summary, "Virtual allocation failed safely");
    assert_eq!(m.warnings.last().unwrap(), "memory region overlaps at 0x10000000");
    let findings = m.build_findings();
    assert_eq!(findings.len(), 1);
    assert_eq!(findings[0].id, "executable-memory");
    assert_eq!(findings[0].severity, DynamicSeverity::High);
    assert_eq!(findings[0].evidence, vec!["0x10000000 4096 bytes r-x"]);
}

#[test]
fn unknown_apis_fail_conservatively() {
    let mut m = machine();
    let (result, summary, shown) = m.emulate_api("mysteryapi", &[1, 0xabc]).unwrap();
    assert_eq!(result, 0);
    assert_eq!(summary, "Unimplemented API mysteryapi returned 0");
    assert_eq!(shown, vec!["0x00000001", "0x00000abc"]);
    assert_eq!(m.warnings.last().unwrap(), "mysteryapi returned a conservative synthetic failure");
    let (result, summary, _) = m.emulate_api("closehandle", &[5]).unwrap();
    assert_eq!(result, 1);
    assert_eq!(summary, "Closed synthetic handle");
}

#[test]
fn calls_through_stubs_pop_arguments_and_return() {
    let mut m = machine();
    let mut cpu = m.cpu;
    cpu.push(&mut m.memory, 25).unwrap();
    cpu.push(&mut m.memory, 0x0040_0123).unwrap();
    m.cpu = cpu;
    let esp_before = m.cpu.esp;
    m.handle_api(ApiImport { module: "KERNEL32.dll".into(), name: "Sleep".into(), argument_count: 1 }).unwrap();
    assert_eq!(m.cpu.eip, 0x0040_0123);
    assert_eq!(m.cpu.esp, esp_before + 8);
    assert_eq!(m.cpu.eax, 0);
    assert_eq!(m.virtual_time_ms, 1_000_025);
    assert_eq!(m.api_calls.len(), 1);
    assert_eq!(m.api_calls[0].name, "Sleep");
    assert_eq!(m.api_calls[0].arguments, vec!["25"]);
    assert_eq!(m.api_calls[0].summary, "Advanced virtual clock by 25 ms");
}

#[test]
fn calls_with_an_unreadable_return_address_change_nothing() {
    let mut m = machine();
    m.cpu = Cpu { esp: 0x10, ..m.cpu };
    let result = m.handle_api(ApiImport { module: "k".into(), name: "Sleep".into(), argument_count: 1 });
    assert_eq!(result, Err(DynamicError::MemoryRead { address: 0x10 }));
    assert_eq!(m.cpu.esp, 0x10);
    assert!(m.api_calls.is_empty());
}

#[test]
fn findings_fall_back_to_no_modeled_behavior() {
    let m = machine();
    let findings = m.build_findings();
    assert_eq!(findings.len(), 1);
    assert_eq!(findings[0].id, "no-modeled-behavior");
    assert_eq!(findings[0].evidence, vec!["0 instructions emulated"]);
}

#[test]
fn helpers_of_the_api_layer() {
    assert_eq!(printable_preview(b"ab\x00\x7f~"), "ab..~");
    assert_eq!(printable_preview(&[b'a'; 200]).len(), 128);
    assert_eq!(protection(0x10), Permissions { read: false, write: false, execute: true });
    assert_eq!(protection(0x120), Permissions { read: true, write: false, execute: true });
    assert_eq!(protection(0x02), Permissions::read_only());
    assert_eq!(protection(0x99), Permissions::read_write());
    assert_eq!(
        memory_termination(DynamicError::MemoryRead { address: 0x44 }, "instruction"),
        Termination::MemoryFault { address: 0x44, operation: "instruction: read".into() }
    );
    assert_eq!(
        memory_termination(DynamicError::MemoryLimit, "api"),
        Termination::MemoryFault { address: 0, operation: "dynamic memory limit exceeded".into() }
    );
    assert_eq!(align_page(1), 0x1000);
    assert_eq!(align_page(0x1000), 0x1000);
    assert_eq!(align_page(0), 0);
    assert_eq!(align_page(usize::MAX), usize::MAX & !0xfff);
    assert_eq!(argument_count("CreateFileA"), 7);
    assert_eq!(argument_count("sleep"), 1);
    assert_eq!(argument_count("Unknown"), 0);
}

#[test]
fn tick_count_after_sleep_reads_the_advanced_clock() {
    let mut m = machine();
    let before = m.virtual_time_ms;
    let (value, summary, shown) = m.emulate_api("sleep", &[90_000_000]).unwrap();
    assert_eq!((value, summary.as_str()), (0, "Advanced virtual clock by 86400000 ms"));
    assert_eq!(shown, vec!["86400000".to_string()]);
    assert_eq!(m.virtual_time_ms, before + 86_400_000);
    let (ticks, text, args) = m.emulate_api("gettickcount", &[]).unwrap();
    assert_eq!(ticks, m.virtual_time_ms as u32);
    assert_eq!(text, "Returned deterministic virtual time");
    assert!(args.is_empty());
    assert!(m.termination.is_none());
}
