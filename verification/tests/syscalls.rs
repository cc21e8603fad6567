use os4::syscall::Kernel;
use os4::syscall::sys_exit;
use os4::syscall::sys_yield;
use os4::syscall::sys_set_priority;
use os4::syscall::sys_get_time;
use os4::syscall::sys_task_info;
use os4::syscall::sys_mmap;
use os4::syscall::sys_munmap;
use os4::task::TaskStatus;
use os4::task::SYSCALL_YIELD;
use os4::task::SYSCALL_SET_PRIORITY;
use os4::task::SYSCALL_MMAP;
use os4::task::SYSCALL_TASK_INFO;

fn read_bytes(k: &Kernel, va: usize, n: usize) -> Option<Vec<u8>> {
    let mut out = Vec::new();
    for i in 0..n {
        match k.space.read_byte(va + i) {
            Some(b) => out.push(b),
            None => return None,
        }
    }
    Some(out)
}

fn le64(bytes: &[u8]) -> u64 {
    let mut v: u64 = 0;
    for i in (0..8).rev() {
        v = (v << 8) | bytes[i] as u64;
    }
    v
}

fn le32(bytes: &[u8]) -> u32 {
    let mut v: u32 = 0;
    for i in (0..4).rev() {
        v = (v << 8) | bytes[i] as u32;
    }
    v
}

#[test]
fn scenario_map_write_unmap() {
    let mut k = Kernel::new(8, 0);
    assert_eq!(sys_mmap(&mut k, 0x10000, 0x2000, 3), 0);
    let data = vec![0xAB, 0xCD, 0xEF, 0x01];
    assert!(k.space.write_bytes(0x11000, &data));
    assert_eq!(read_bytes(&k, 0x11000, 4), Some(data.clone()));
    assert_eq!(sys_munmap(&mut k, 0x10000, 0x2000), 0);
    assert!(!k.space.write_bytes(0x11000, &data));
    assert_eq!(k.space.read_byte(0x10000), None);
    assert_eq!(k.space.read_byte(0x11000), None);
}

#[test]
fn fresh_pages_read_zero() {
    let mut k = Kernel::new(4, 0);
    assert_eq!(sys_mmap(&mut k, 0x4000, 0x1000, 1), 0);
    assert_eq!(read_bytes(&k, 0x4000, 16), Some(vec![0; 16]));
}

#[test]
fn write_straddles_page_boundary() {
    let mut k = Kernel::new(8, 0);
    assert_eq!(sys_mmap(&mut k, 0x10000, 0x2000, 3), 0);
    let data = vec![1, 2, 3, 4, 5, 6, 7, 8];
    assert!(k.space.write_bytes(0x10FFC, &data));
    assert_eq!(read_bytes(&k, 0x10FFC, 8), Some(data));
}

#[test]
fn mmap_bad_port_fails_unchanged() {
    let mut k = Kernel::new(8, 0);
    assert_eq!(sys_mmap(&mut k, 0x4000, 0x1000, 8), -1);
    assert_eq!(k.space.read_byte(0x4000), None);
    // The identical request again behaves identically.
    assert_eq!(sys_mmap(&mut k, 0x4000, 0x1000, 8), -1);
    assert_eq!(k.space.read_byte(0x4000), None);
    assert_eq!(sys_mmap(&mut k, 0x4000, 0x1000, 0x13), -1);
    assert_eq!(k.space.read_byte(0x4000), None);
}

#[test]
fn mmap_overlap_fails_keeps_original() {
    let mut k = Kernel::new(8, 0);
    assert_eq!(sys_mmap(&mut k, 0x10000, 0x1000, 3), 0);
    let marker = vec![0x5A];
    assert!(k.space.write_bytes(0x10010, &marker));
    assert_eq!(sys_mmap(&mut k, 0x10000, 0x2000, 3), -1);
    assert_eq!(read_bytes(&k, 0x10010, 1), Some(marker));
    assert_eq!(k.space.read_byte(0x11000), None);
}

#[test]
fn munmap_partial_fails_no_unmap() {
    let mut k = Kernel::new(8, 0);
    assert_eq!(sys_mmap(&mut k, 0x10000, 0x1000, 3), 0);
    let marker = vec![0x77];
    assert!(k.space.write_bytes(0x10000, &marker));
    assert_eq!(sys_munmap(&mut k, 0x10000, 0x2000), -1);
    assert_eq!(read_bytes(&k, 0x10000, 1), Some(marker));
}

#[test]
fn mmap_misaligned_fails() {
    let mut k = Kernel::new(8, 0);
    assert_eq!(sys_mmap(&mut k, 0x10001, 0x1000, 3), -1);
    assert_eq!(sys_munmap(&mut k, 0x10001, 0x1000), -1);
}

#[test]
fn mmap_zero_len_is_noop_success() {
    let mut k = Kernel::new(8, 0);
    assert_eq!(sys_mmap(&mut k, 0x10000, 0, 3), 0);
    assert_eq!(k.space.read_byte(0x10000), None);
    assert_eq!(sys_munmap(&mut k, 0x10000, 0), 0);
}

#[test]
fn mmap_rounds_len_up_to_pages() {
    let mut k = Kernel::new(8, 0);
    assert_eq!(sys_mmap(&mut k, 0x10000, 0x1001, 3), 0);
    assert_ne!(k.space.read_byte(0x11FFF), None);
    assert_eq!(k.space.read_byte(0x12000), None);
}

#[test]
fn mmap_out_of_frames_fails() {
    let mut k = Kernel::new(1, 0);
    assert_eq!(sys_mmap(&mut k, 0, 0x2000, 3), -1);
    assert_eq!(sys_mmap(&mut k, 0, 0x1000, 3), 0);
}

#[test]
fn get_time_writes_decomposition() {
    let mut k = Kernel::new(4, 3_500_000);
    assert_eq!(sys_mmap(&mut k, 0x4000, 0x1000, 3), 0);
    assert_eq!(sys_get_time(&mut k, 0x4000, 0), 0);
    let buf = read_bytes(&k, 0x4000, 16).unwrap();
    assert_eq!(le64(&buf[0..8]), 3);
    assert_eq!(le64(&buf[8..16]), 500_000);
}

#[test]
fn get_time_twice_non_decreasing() {
    let mut k = Kernel::new(4, 1_234_567);
    assert_eq!(sys_mmap(&mut k, 0x4000, 0x1000, 3), 0);
    assert_eq!(sys_get_time(&mut k, 0x4000, 0), 0);
    let first = read_bytes(&k, 0x4000, 16).unwrap();
    k.advance_clock(2_000_001);
    assert_eq!(sys_get_time(&mut k, 0x4000, 0), 0);
    let second = read_bytes(&k, 0x4000, 16).unwrap();
    let (s1, u1) = (le64(&first[0..8]), le64(&first[8..16]));
    let (s2, u2) = (le64(&second[0..8]), le64(&second[8..16]));
    assert_eq!((s1, u1), (1, 234_567));
    assert_eq!((s2, u2), (3, 234_568));
    assert!(s1 < s2 || (s1 == s2 && u1 <= u2));
}

#[test]
fn get_time_unmapped_buffer_fails() {
    let mut k = Kernel::new(4, 42);
    assert_eq!(sys_get_time(&mut k, 0x4000, 0), -1);
}

#[test]
fn task_info_reports_counters() {
    let mut k = Kernel::new(4, 0);
    assert_eq!(sys_mmap(&mut k, 0x8000, 0x1000, 3), 0);
    assert_eq!(sys_yield(&mut k), 0);
    assert_eq!(sys_yield(&mut k), 0);
    assert_eq!(sys_yield(&mut k), 0);
    assert_eq!(sys_set_priority(&mut k, 5), -1);
    assert_eq!(sys_task_info(&mut k, 0x8000), 0);
    let buf = read_bytes(&k, 0x8000, 2009).unwrap();
    // Status byte: still running.
    assert_eq!(buf[0], 2);
    let counter = |id: usize| le32(&buf[1 + 4 * id..1 + 4 * id + 4]);
    assert_eq!(counter(SYSCALL_YIELD), 3);
    assert_eq!(counter(SYSCALL_SET_PRIORITY), 1);
    assert_eq!(counter(SYSCALL_MMAP), 1);
    // The call itself is already counted in the snapshot it writes.
    assert_eq!(counter(SYSCALL_TASK_INFO), 1);
    assert_eq!(le64(&buf[2001..2009]), 0);
}

#[test]
fn task_info_reports_elapsed_ms() {
    let mut k = Kernel::new(4, 5_000_000);
    assert_eq!(sys_mmap(&mut k, 0x8000, 0x1000, 3), 0);
    k.advance_clock(3_000_000);
    assert_eq!(sys_task_info(&mut k, 0x8000), 0);
    let buf = read_bytes(&k, 0x8000, 2009).unwrap();
    assert_eq!(le64(&buf[2001..2009]), 3000);
}

#[test]
fn task_info_unmapped_buffer_fails() {
    let mut k = Kernel::new(4, 0);
    assert_eq!(sys_task_info(&mut k, 0x8000), -1);
}

#[test]
fn exit_records_code_and_status() {
    let mut k = Kernel::new(4, 0);
    sys_exit(&mut k, 42);
    assert!(k.status == TaskStatus::Exited);
    assert_eq!(k.exit_code, 42);
}

#[test]
fn yield_returns_zero() {
    let mut k = Kernel::new(4, 0);
    assert_eq!(sys_yield(&mut k), 0);
}

#[test]
fn set_priority_always_fails() {
    let mut k = Kernel::new(4, 0);
    assert_eq!(sys_set_priority(&mut k, 16), -1);
    assert_eq!(sys_set_priority(&mut k, -2), -1);
}
