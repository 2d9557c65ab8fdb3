use aegis::dynamic_error::DynamicError;
use aegis::dynamic_model::{EnvironmentProfile, NetworkMode, NetworkScenario, SocketScenario, Termination};
use aegis::engine64::{preview_bytes, protection64};
use aegis::linux::{errno, linux_permissions, preview, syscall_name, syscall_summary};
use aegis::linux_runtime::{linux_operating_system, linux_thread_state, LinuxImport, LinuxMachine, LINUX_HEAP_BASE, LINUX_MMAP_BASE};
use aegis::memory::Permissions;
use aegis::memory64::Memory64;
use sha2::Digest;

const DATA: u64 = 0x10000;
const STACK_TOP: u64 = 0x7000_8000;

fn scenario() -> NetworkScenario {
    NetworkScenario {
        id: "unit".into(),
        dns: vec![],
        http: vec![],
        sockets: vec![SocketScenario { destination: "10.0.0.7:4444".into(), response: b"hello".to_vec() }],
    }
}

fn machine_in(environment: &EnvironmentProfile) -> LinuxMachine {
    let mut memory = Memory64::new();
    memory.map(DATA, 0x10000, Permissions::read_write(), "data".into()).unwrap();
    memory.map(0x7000_0000, 0x10000, Permissions::read_write(), "stack".into()).unwrap();
    LinuxMachine::new(memory, 0x40_0000, STACK_TOP, 0x7000_9000, 0x7000_9100, environment, scenario())
}

fn machine() -> LinuxMachine {
    machine_in(&EnvironmentProfile::default())
}

fn put(m: &mut LinuxMachine, address: u64, bytes: &[u8]) {
    m.memory.write(address, bytes).unwrap();
}

fn get(m: &LinuxMachine, address: u64, length: usize) -> Vec<u8> {
    m.memory.read(address, length).unwrap().to_vec()
}

#[test]
fn a_new_process_has_the_standard_files_and_descriptors() {
    let m = machine();
    assert_eq!(m.next_fd, 3);
    assert_eq!(m.cpu.rip, 0x40_0000);
    assert_eq!(m.cpu.gpr[4], STACK_TOP);
    assert_eq!(m.brk, LINUX_HEAP_BASE + 0x1000);
    assert_eq!(m.mmap_next, LINUX_MMAP_BASE);
    let paths: Vec<&str> = m.files.iter().map(|(p, _)| p.as_str()).collect();
    assert_eq!(paths, vec!["/dev/stderr", "/dev/stdin", "/dev/stdout", "/etc/hostname", "/proc/cpuinfo", "/proc/self/status"]);
    let fds: Vec<i32> = m.descriptors.iter().map(|(fd, _)| *fd).collect();
    assert_eq!(fds, vec![0, 1, 2]);
}

#[test]
fn bytes_written_to_a_file_are_read_back_through_another_descriptor() {
    let mut m = machine();
    put(&mut m, DATA, b"/tmp/out\0");
    put(&mut m, DATA + 0x100, b"hello");
    let fd = m.open_path("/tmp/out".into(), 0o1101);
    assert_eq!(fd, 3);
    assert_eq!(m.sys_write(3, DATA + 0x100, 5), Ok(5));
    assert_eq!(m.close_fd(3), 0);
    assert_eq!(m.close_fd(3), -9);
    assert_eq!(m.open_path("/tmp/out".into(), 0), 4);
    assert_eq!(m.sys_read(4, DATA + 0x200, 16), Ok(5));
    assert_eq!(get(&m, DATA + 0x200, 5), b"hello".to_vec());
    assert_eq!(m.sys_read(4, DATA + 0x200, 16), Ok(0));
    let operations: Vec<&str> = m.filesystem_events.iter().map(|e| e.operation.as_str()).collect();
    assert_eq!(operations, vec!["open", "write", "open", "read", "read"]);
    assert_eq!(m.filesystem_events[1].preview.as_deref(), Some("hello"));
}

#[test]
fn a_write_past_the_cursor_zero_fills_and_a_huge_one_is_refused() {
    let mut m = machine();
    put(&mut m, DATA + 0x100, b"xy");
    let fd = m.open_path("/tmp/gap".into(), 0o101);
    assert_eq!(fd, 3);
    assert_eq!(m.sys_write(3, DATA + 0x100, 2), Ok(2));
    m.descriptors[3].1.cursor = 4;
    assert_eq!(m.sys_write(3, DATA + 0x100, 2), Ok(2));
    let file = &m.files.iter().find(|(p, _)| p == "/tmp/gap").unwrap().1;
    assert_eq!(file, &vec![b'x', b'y', 0, 0, b'x', b'y']);
    m.descriptors[3].1.cursor = 0x10_0000;
    assert_eq!(m.sys_write(3, DATA + 0x100, 2), Ok(errno(27)));
    assert!(m.truncated);
}

#[test]
fn opening_a_missing_file_without_create_fails() {
    let mut m = machine();
    assert_eq!(m.open_path("/nope".into(), 0), -2);
    assert_eq!(m.filesystem_events[0].operation, "open_failed");
    assert_eq!(m.open_path(String::new(), 0o100), -2);
    assert_eq!(m.filesystem_events.len(), 1);
}

#[test]
fn unknown_and_read_only_descriptors_give_ebadf() {
    let mut m = machine();
    put(&mut m, DATA, b"abc");
    assert_eq!(m.sys_read(9, DATA, 3), Ok(errno(9)));
    assert_eq!(m.sys_write(9, DATA, 3), Ok(errno(9)));
    assert_eq!(m.sys_write(0, DATA, 3), Ok(errno(9)));
    assert_eq!(errno(9), 0xffff_ffff_ffff_fff7);
    assert_eq!(m.sys_write(1, 0x9999_0000, 3), Err(DynamicError::MemoryRead { address: 0x9999_0000 }));
}

#[test]
fn standard_output_writes_are_recorded() {
    let mut m = machine();
    put(&mut m, DATA, b"hi\x01");
    assert_eq!(m.sys_write(1, DATA, 3), Ok(3));
    assert_eq!(m.sys_write(2, DATA, 2), Ok(2));
    assert_eq!(m.filesystem_events[0].path, "/dev/stdout");
    assert_eq!(m.filesystem_events[0].preview.as_deref(), Some("hi."));
    assert_eq!(m.filesystem_events[1].path, "/dev/stderr");
}

#[test]
fn the_program_break_and_the_heap_stay_inside_the_heap() {
    let mut m = machine();
    assert_eq!(m.sys_brk(0), LINUX_HEAP_BASE + 0x1000);
    assert_eq!(m.sys_brk(LINUX_HEAP_BASE + 0x5000), LINUX_HEAP_BASE + 0x5000);
    assert_eq!(m.sys_brk(1), LINUX_HEAP_BASE + 0x5000);
    let first = m.allocate_heap(1);
    assert_eq!(first, LINUX_HEAP_BASE + 0x1000);
    assert_eq!(m.allocate_heap(17), first + 16);
    assert_eq!(m.heap_next, first + 48);
    m.heap_next = LINUX_HEAP_BASE + 0x0100_0000 - 8;
    assert_eq!(m.allocate_heap(16), 0);
}

#[test]
fn uname_random_clock_and_readlink_answer_fixed_values() {
    let mut m = machine();
    assert_eq!(m.sys_uname(DATA), Ok(0));
    assert_eq!(&get(&m, DATA, 6), b"Linux\0");
    assert_eq!(&get(&m, DATA + 65, 11), b"NOPE-LINUX\0");
    assert_eq!(&get(&m, DATA + 5 * 65, 12), b"localdomain\0");
    assert_eq!(m.sys_getrandom(DATA + 0x400, 20), Ok(20));
    assert_eq!(&get(&m, DATA + 0x400, 20), b"NOPE-LINUX-RANDOMNOP");
    m.virtual_time_ms = 1234;
    assert_eq!(m.sys_clock(DATA + 0x500), Ok(0));
    assert_eq!(m.memory.read_u64(DATA + 0x500), Ok(1));
    assert_eq!(m.memory.read_u64(DATA + 0x508), Ok(234_000_000));
    put(&mut m, DATA + 0x600, b"/proc/self/exe\0");
    assert_eq!(m.sys_readlink(DATA + 0x600, DATA + 0x700, 64), Ok(18));
    assert_eq!(&get(&m, DATA + 0x700, 18), b"/sample/nope-linux");
    assert_eq!(m.sys_readlink(DATA + 0x600, DATA + 0x800, 5), Ok(5));
    assert_eq!(&get(&m, DATA + 0x800, 5), b"/samp");
    assert_eq!(m.sys_readlink(DATA + 0x700, DATA + 0x800, 5), Ok(errno(2)));
}

#[test]
fn stat_reports_mode_and_size_of_virtual_files() {
    let mut m = machine();
    put(&mut m, DATA, b"/etc/hostname\0");
    assert_eq!(m.sys_stat(DATA, DATA + 0x100), Ok(0));
    assert_eq!(&get(&m, DATA + 0x100 + 24, 4), &[0xa4, 0x81, 0, 0]);
    assert_eq!(m.memory.read_u64(DATA + 0x100 + 48), Ok(11));
    put(&mut m, DATA, b"/etc/missing\0");
    assert_eq!(m.sys_stat(DATA, DATA + 0x100), Ok(errno(2)));
}

#[test]
fn arch_prctl_loads_and_stores_thread_bases() {
    let mut m = machine();
    assert_eq!(m.sys_arch_prctl(0x1002, 0x1234), Ok(0));
    assert_eq!(m.fs_base, 0x1234);
    assert_eq!(m.sys_arch_prctl(0x1001, 0x5678), Ok(0));
    assert_eq!(m.cpu.gs_base, 0x5678);
    assert_eq!(m.sys_arch_prctl(0x1003, DATA), Ok(0));
    assert_eq!(m.memory.read_u64(DATA), Ok(0x1234));
    assert_eq!(m.sys_arch_prctl(0x1003, 0), Ok(errno(22)));
    assert_eq!(m.sys_arch_prctl(0x9999, DATA), Ok(errno(22)));
    assert_eq!(m.system.len(), 3);
    assert_eq!(m.system[0].target, "0x0000000000001234");
    assert_eq!(m.system[0].detail, "code 0x1002");
}

fn sockaddr(m: &mut LinuxMachine, address: u64) {
    put(m, address, &[2, 0, 0x11, 0x5c, 10, 0, 0, 7]);
}

#[test]
fn sockets_connect_to_their_scripted_peer_and_exchange_bytes() {
    let mut m = machine();
    assert_eq!(m.sys_socket(10, 1, 0), errno(97));
    assert_eq!(m.sys_socket(2, 1, 0), 3);
    assert_eq!(m.descriptors[3].1.path, "socket:3");
    sockaddr(&mut m, DATA);
    assert_eq!(m.sys_connect(3, DATA, 4), errno(9));
    assert_eq!(m.sys_connect(3, DATA, 16), 0);
    assert_eq!(m.network_events[0].destination, "10.0.0.7:4444");
    put(&mut m, DATA + 0x100, b"ping");
    assert_eq!(m.sys_send(3, DATA + 0x100, 4), Ok(4));
    assert_eq!(m.network_exchanges.len(), 1);
    let expected = hex::encode(sha2::Sha256::digest(b"ping"));
    assert_eq!(m.network_exchanges[0].request_sha256, Some(expected));
    assert_eq!(m.network_exchanges[0].request_preview.as_deref(), Some("ping"));
    assert_eq!(m.sys_recv(3, DATA + 0x200, 16), Ok(5));
    assert_eq!(&get(&m, DATA + 0x200, 5), b"hello");
    assert_eq!(m.sys_recv(3, DATA + 0x200, 16), Ok(0));
    assert_eq!(m.network_events.len(), 4);
    assert_eq!(m.close_fd(3), 0);
}

#[test]
fn offline_profiles_refuse_connections() {
    let mut environment = EnvironmentProfile::default();
    environment.network_mode = NetworkMode::Offline;
    let mut m = machine_in(&environment);
    assert_eq!(m.sys_socket(2, 1, 0), 3);
    sockaddr(&mut m, DATA);
    assert_eq!(m.sys_connect(3, DATA, 16), errno(101));
    assert_eq!(m.network_events[0].synthetic_result, "offline profile");
}

#[test]
fn mmap_maps_anonymous_and_file_backed_memory() {
    let mut m = machine();
    let address = m.sys_mmap(&[0, 0x1800, 3, 0x22, u64::MAX, 0]).unwrap();
    assert_eq!(address, LINUX_MMAP_BASE);
    assert_eq!(m.mmap_next, LINUX_MMAP_BASE + 0x3000);
    assert_eq!(m.memory_events[0].size, 0x2000);
    assert_eq!(m.memory_events[0].permissions, "rw-");
    put(&mut m, DATA, b"/etc/hostname\0");
    let fd = m.open_path("/etc/hostname".into(), 0);
    let mapped = m.sys_mmap(&[0, 0x100, 1, 0x02, fd as u64, 5]).unwrap();
    assert_eq!(&get(&m, mapped, 6), b"LINUX\n");
    assert_eq!(m.sys_mprotect(mapped, 1, 5), Ok(0));
    assert_eq!(m.memory_events[2].operation, "protect");
    assert_eq!(m.memory_events[2].permissions, "r-x");
    assert_eq!(m.sys_mprotect(0x1, 1, 5), Ok(errno(12)));
    assert_eq!(m.sys_munmap(mapped, 0x1000), Ok(0));
    assert_eq!(m.memory_events[3].permissions, "---");
    assert_eq!(m.sys_mmap(&[0, 0x1000, 3, 0x22, u64::MAX, 0]).map(|a| a > mapped), Ok(true));
    assert_eq!(m.sys_mmap(&[DATA + 1, 0x1000, 3, 0x32, u64::MAX, 0]), Ok(errno(12)));
}

#[test]
fn syscalls_without_a_model_return_enosys() {
    let mut m = machine();
    assert_eq!(m.dispatch_linux_call(999, &[0; 6]), Ok(errno(38)));
    assert_eq!(m.warnings, vec!["Linux syscall 999 is not modeled; returned -ENOSYS".to_string()]);
    assert_eq!(m.unmodeled_api_calls, 1);
    assert_eq!(m.dispatch_linux_call(39, &[0; 6]), Ok(4242));
    assert_eq!(m.dispatch_linux_call(102, &[0; 6]), Ok(1000));
    assert_eq!(m.dispatch_linux_call(60, &[7, 0, 0, 0, 0, 0]), Ok(0));
    assert_eq!(m.termination, Some(Termination::ExitProcess { code: 7 }));
}

#[test]
fn a_syscall_instruction_sets_rax_and_is_recorded() {
    let mut m = machine();
    m.cpu.gpr[0] = 39;
    assert_eq!(m.handle_syscall(), Ok(()));
    assert_eq!(m.cpu.gpr[0], 4242);
    assert_eq!(m.api_calls.len(), 1);
    assert_eq!(m.api_calls[0].name, "getpid");
    assert_eq!(m.api_calls[0].module, "linux");
    assert_eq!(m.api_calls[0].summary, "Synthetic Linux getpid returned 4242");
    assert_eq!(m.api_calls[0].arguments[0], "0x0000000000000000");
    assert_eq!(m.modeled_api_calls, 1);
    assert_eq!(m.unique_api_names, vec!["getpid".to_string()]);
    assert_eq!(m.timeline[0].category, "syscall");
    m.cpu.gpr[0] = 500;
    assert_eq!(m.handle_syscall(), Ok(()));
    assert_eq!(m.api_calls[1].summary, "Synthetic Linux unknown_syscall returned -38");
    assert_eq!(m.modeled_api_calls, 1);
}

#[test]
fn execve_is_recorded_and_denied() {
    let mut m = machine();
    put(&mut m, DATA, b"/bin/sh\0");
    assert_eq!(m.sys_execve(DATA), errno(13));
    assert_eq!(m.processes[0].command, "/bin/sh");
    assert_eq!(m.timeline[0].operation, "execve");
}

fn call_import(m: &mut LinuxMachine, name: &str, return_to: u64) -> Result<(), DynamicError> {
    m.cpu.gpr[4] = STACK_TOP - 0x100;
    m.memory.write_u64(STACK_TOP - 0x100, return_to).unwrap();
    m.handle_import(LinuxImport { name: name.into(), module: "libc.so.6".into() })
}

#[test]
fn libc_calls_are_answered_and_return_to_the_caller() {
    let mut m = machine();
    put(&mut m, DATA, b"hi there\0");
    m.cpu.gpr[7] = DATA;
    assert_eq!(call_import(&mut m, "puts", 0x40_1234), Ok(()));
    assert_eq!(m.cpu.gpr[0], 8);
    assert_eq!(m.cpu.rip, 0x40_1234);
    assert_eq!(m.cpu.gpr[4], STACK_TOP - 0xf8);
    assert_eq!(m.filesystem_events[0].path, "/dev/stdout");
    assert_eq!(call_import(&mut m, "__STRLEN", 0x40_1238), Ok(()));
    assert_eq!(m.cpu.gpr[0], 8);
    m.cpu.gpr[7] = 24;
    assert_eq!(call_import(&mut m, "malloc", 0x40_1240), Ok(()));
    assert_eq!(m.cpu.gpr[0], LINUX_HEAP_BASE + 0x1000);
    assert_eq!(m.api_calls[2].summary, "Modeled synthetic Linux libc call malloc");
    assert_eq!(m.modeled_api_calls, 3);
    assert_eq!(call_import(&mut m, "frobnicate", 0x40_1250), Ok(()));
    assert_eq!(m.warnings.last().unwrap(), "Linux import frobnicate is not modeled; returned 0");
    assert_eq!(m.modeled_api_calls, 3);
    m.cpu.gpr[7] = 3;
    assert_eq!(call_import(&mut m, "exit", 0x40_1260), Ok(()));
    assert_eq!(m.termination, Some(Termination::ExitProcess { code: 3 }));
    assert_eq!(m.cpu.rip, 0x40_1250);
}

#[test]
fn libc_start_main_enters_main_with_arguments() {
    let mut m = machine();
    m.cpu.gpr[7] = 0x40_2000;
    assert_eq!(m.handle_import(LinuxImport { name: "__libc_start_main".into(), module: "libc.so.6".into() }), Ok(()));
    assert_eq!(m.cpu.rip, 0x40_2000);
    assert_eq!(m.cpu.gpr[4], STACK_TOP - 8);
    assert_eq!(m.cpu.gpr[7], 1);
    assert_eq!(m.cpu.gpr[6], 0x7000_9000);
    assert_eq!(m.cpu.gpr[2], 0x7000_9100);
    assert_eq!(m.memory.read_u64(STACK_TOP - 8), Ok(0x0000_006d_ffff_fff0));
    assert_eq!(m.api_calls[0].summary, "Entered main at 0x0000000000402000 through synthetic libc startup");
}

#[test]
fn memcpy_and_memset_copy_and_fill_guest_memory() {
    let mut m = machine();
    put(&mut m, DATA, b"abcdef");
    m.cpu.gpr[7] = DATA + 0x10;
    m.cpu.gpr[6] = DATA;
    m.cpu.gpr[2] = 4;
    assert_eq!(call_import(&mut m, "memcpy", 0x40_1000), Ok(()));
    assert_eq!(&get(&m, DATA + 0x10, 4), b"abcd");
    assert_eq!(m.cpu.gpr[0], DATA + 0x10);
    m.cpu.gpr[7] = DATA + 0x20;
    m.cpu.gpr[6] = 0x41;
    m.cpu.gpr[2] = 3;
    assert_eq!(call_import(&mut m, "memset", 0x40_1000), Ok(()));
    assert_eq!(&get(&m, DATA + 0x20, 3), b"AAA");
}

#[test]
fn syscall_names_summaries_and_errno_values() {
    assert_eq!(syscall_name(0), "read");
    assert_eq!(syscall_name(231), "exit_group");
    assert_eq!(syscall_name(9999), "unknown_syscall");
    assert_eq!(syscall_summary("open", errno(2)), "Synthetic Linux open returned -2");
    assert_eq!(syscall_summary("getpid", 4242), "Synthetic Linux getpid returned 4242");
    assert_eq!(errno(38), u64::MAX - 37);
    let p = linux_permissions(5);
    assert!(p.read && !p.write && p.execute);
    assert_eq!(preview(b"ok\n"), "ok.");
    assert_eq!(preview(&[b'a'; 200]).len(), 96);
}

#[test]
fn x64_protections_and_previews() {
    let p = protection64(0x40);
    assert!(p.read && p.write && p.execute);
    let q = protection64(0x01);
    assert!(!q.read && !q.write && !q.execute);
    let r = protection64(0x20);
    assert!(r.read && !r.write && r.execute);
    assert_eq!(preview_bytes(b"a\x01b\nc\xff"), "a.b\nc\u{fffd}");
    assert_eq!(preview_bytes(&[b'z'; 300]).chars().count(), 160);
}

#[test]
fn a_quiet_run_reports_only_user_mode_execution() {
    let m = machine();
    let findings = m.linux_findings();
    assert_eq!(findings.len(), 1);
    assert_eq!(findings[0].id, "linux-user-mode-execution");
    assert_eq!(findings[0].evidence, vec!["0 instructions · 0 syscall/libc events".to_string()]);
}

#[test]
fn recorded_behavior_becomes_findings() {
    let mut m = machine();
    put(&mut m, DATA, b"/bin/sh\0");
    m.sys_execve(DATA);
    put(&mut m, DATA + 0x100, b"data");
    m.open_path("/tmp/x".into(), 0o101);
    assert_eq!(m.sys_write(3, DATA + 0x100, 4), Ok(4));
    assert_eq!(m.sys_socket(2, 1, 0), 4);
    sockaddr(&mut m, DATA + 0x200);
    assert_eq!(m.sys_connect(4, DATA + 0x200, 16), 0);
    let mapped = m.sys_mmap(&[0, 0x1000, 3, 0x22, u64::MAX, 0]).unwrap();
    assert_eq!(m.sys_mprotect(mapped, 0x1000, 5), Ok(0));
    let findings = m.linux_findings();
    let ids: Vec<&str> = findings.iter().map(|f| f.id.as_str()).collect();
    assert_eq!(ids, vec![
        "linux-user-mode-execution",
        "linux-process-execution",
        "linux-file-write",
        "linux-network-activity",
        "linux-executable-memory",
    ]);
    assert_eq!(findings[1].evidence, vec!["execve · /bin/sh".to_string()]);
    assert_eq!(findings[2].evidence, vec!["/tmp/x · 4 bytes".to_string()]);
    assert_eq!(findings[3].evidence, vec!["connect · 10.0.0.7:4444".to_string()]);
    assert_eq!(findings[4].evidence, vec![format!("0x{:016x} · r-x", mapped)]);
}

#[test]
fn the_reported_system_and_thread_state() {
    assert_eq!(linux_operating_system("Linux 5.15"), "Linux 5.15 (synthetic user mode)");
    assert_eq!(linux_operating_system("Windows 10 22H2"), "Linux 6.8 (synthetic user mode)");
    assert_eq!(linux_thread_state(&Termination::ExitProcess { code: 0 }), "terminated");
    assert_eq!(linux_thread_state(&Termination::InstructionLimit), "stopped");
}
