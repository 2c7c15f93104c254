use os::config::{MAX_SYSCALL_NUM, PAGE_SIZE};
use os::process::{sys_get_time, sys_task_info, TaskInfo, TimeVal, TASK_INFO_SIZE, TIME_VAL_SIZE};
use os::task::{TaskContext, TaskControlBlock, TaskStatus};
use os::uaccess::{copy_kernel_result_to_user_space, Segment};

/// A small address space: virtual page `v` is backed by physical frame
/// `frames[v]`, deliberately out of order.
struct AddressSpace {
    frames: Vec<usize>,
}

impl AddressSpace {
    fn new() -> AddressSpace {
        AddressSpace { frames: vec![3, 0, 2, 1] }
    }

    fn mem(&self) -> Vec<u8> {
        vec![0xEEu8; self.frames.len() * PAGE_SIZE]
    }

    fn translate(&self, addr: usize, len: usize) -> Vec<Segment> {
        let mut segs = Vec::new();
        let mut va = addr;
        let end = addr + len;
        while va < end {
            let page = va / PAGE_SIZE;
            let off = va % PAGE_SIZE;
            let n = std::cmp::min(PAGE_SIZE - off, end - va);
            segs.push(Segment { start: self.frames[page] * PAGE_SIZE + off, len: n });
            va += n;
        }
        segs
    }

    fn read(&self, mem: &[u8], addr: usize, len: usize) -> Vec<u8> {
        let mut out = Vec::new();
        for s in self.translate(addr, len) {
            out.extend_from_slice(&mem[s.start..s.start + s.len]);
        }
        out
    }
}

fn time_val_expected(sec: u64, usec: u64) -> Vec<u8> {
    let mut v = sec.to_le_bytes().to_vec();
    v.extend_from_slice(&usec.to_le_bytes());
    v
}

fn stored_info(start_ms: usize) -> TaskInfo {
    let mut times = [0u32; MAX_SYSCALL_NUM];
    times[64] = 3;
    times[169] = 7;
    times[410] = 0x0102_0304;
    TaskInfo { status: TaskStatus::Running, syscall_times: times, time: start_ms }
}

fn get_time_at(addr: usize, us: usize) {
    let space = AddressSpace::new();
    let mut mem = space.mem();
    let segs = space.translate(addr, TIME_VAL_SIZE);
    assert_eq!(sys_get_time(&segs, 0, us, &mut mem), 0);
    let expected = time_val_expected((us / 1_000_000) as u64, (us % 1_000_000) as u64);
    assert_eq!(space.read(&mem, addr, TIME_VAL_SIZE), expected);
    // Nothing outside the destination changed.
    let changed = mem.iter().filter(|b| **b != 0xEE).count();
    assert!(changed <= TIME_VAL_SIZE);
}

#[test]
fn get_time_within_one_page() {
    get_time_at(0x1100, 3_250_000_123);
}

#[test]
fn get_time_at_page_boundary() {
    get_time_at(0x2000, 1_500_001);
}

#[test]
fn get_time_ending_at_page_boundary() {
    get_time_at(0x2000 - TIME_VAL_SIZE, 1_500_001);
}

#[test]
fn get_time_straddling_one_byte_before_boundary() {
    get_time_at(0x2000 - 1, 42_000_017);
}

#[test]
fn get_time_straddling_one_byte_after_start() {
    get_time_at(0x2000 - TIME_VAL_SIZE + 1, 987_654_321);
}

#[test]
fn get_time_split_in_the_middle() {
    let space = AddressSpace::new();
    let segs = space.translate(0x1ff8, TIME_VAL_SIZE);
    assert_eq!(segs.len(), 2);
    assert_eq!(segs[0], Segment { start: 0x0ff8, len: 8 });
    assert_eq!(segs[1], Segment { start: 0x2000, len: 8 });
    let mut mem = space.mem();
    assert_eq!(sys_get_time(&segs, 0, 1_500_001, &mut mem), 0);
    assert_eq!(&mem[0x0ff8..0x1000], &[1u8, 0, 0, 0, 0, 0, 0, 0]);
    assert_eq!(&mem[0x2000..0x2008], &[0x21u8, 0xA1, 0x07, 0, 0, 0, 0, 0]);
    assert_eq!(mem[0x0ff7], 0xEE);
    assert_eq!(mem[0x2008], 0xEE);
}

#[test]
fn get_time_undercovered_destination_fails_without_writing() {
    let space = AddressSpace::new();
    let mut mem = space.mem();
    let segs = space.translate(0x1ff8, TIME_VAL_SIZE - 1);
    assert_eq!(sys_get_time(&segs, 0, 1_500_001, &mut mem), -1);
    assert!(mem.iter().all(|b| *b == 0xEE));
}

#[test]
fn time_val_decomposition() {
    for us in [0usize, 1, 999_999, 1_000_000, 1_500_001, 3_250_000_123, usize::MAX] {
        let t = TimeVal::from_micros(us);
        assert_eq!(t.sec, us / 1_000_000);
        assert_eq!(t.usec, us % 1_000_000);
        assert_eq!(t.sec * 1_000_000 + t.usec, us);
    }
    assert_eq!(TimeVal::from_micros(1_500_001), TimeVal { sec: 1, usec: 500_001 });
}

#[test]
fn time_val_layout() {
    let t = TimeVal { sec: 0x0102, usec: 0x0A0B0C };
    assert_eq!(
        t.to_bytes(),
        vec![0x02u8, 0x01, 0, 0, 0, 0, 0, 0, 0x0C, 0x0B, 0x0A, 0, 0, 0, 0, 0]
    );
}

#[test]
fn task_info_layout() {
    let info = stored_info(0x1122_3344_5566);
    let b = info.to_bytes();
    assert_eq!(b.len(), TASK_INFO_SIZE);
    assert_eq!(&b[0..4], &[2u8, 0, 0, 0]);
    assert_eq!(&b[4 + 64 * 4..4 + 65 * 4], &[3u8, 0, 0, 0]);
    assert_eq!(&b[4 + 169 * 4..4 + 170 * 4], &[7u8, 0, 0, 0]);
    assert_eq!(&b[4 + 410 * 4..4 + 411 * 4], &[4u8, 3, 2, 1]);
    assert_eq!(&b[2004..2008], &[0u8, 0, 0, 0]);
    assert_eq!(&b[2008..2016], &[0x66u8, 0x55, 0x44, 0x33, 0x22, 0x11, 0, 0]);
    let nonzero = b[4..2004].iter().filter(|x| **x != 0).count();
    assert_eq!(nonzero, 1 + 1 + 4);
}

#[test]
fn task_status_codes() {
    assert_eq!(TaskStatus::UnInit.code(), 0);
    assert_eq!(TaskStatus::Ready.code(), 1);
    assert_eq!(TaskStatus::Running.code(), 2);
    assert_eq!(TaskStatus::Exited.code(), 3);
}

#[test]
fn task_info_elapsed_since_creation() {
    let tcb = TaskControlBlock {
        task_cx: TaskContext { ra: 0, sp: 0x8000, s: [0; 12] },
        task_info: stored_info(100),
    };
    let space = AddressSpace::new();
    let mut mem = space.mem();
    let addr = 0x2000 - 1000;
    let segs = space.translate(addr, TASK_INFO_SIZE);
    assert_eq!(segs.len(), 2);
    assert_eq!(sys_task_info(&segs, &tcb.task_info, 250, &mut mem), 0);
    let back = space.read(&mem, addr, TASK_INFO_SIZE);
    assert_eq!(&back[2008..2016], &150u64.to_le_bytes());
    let mut expected = stored_info(100);
    expected.time = 150;
    assert_eq!(back, expected.to_bytes());
    assert_eq!(tcb.task_info.time, 100);
}

#[test]
fn task_info_successive_queries() {
    let stored = stored_info(1_000);
    let space = AddressSpace::new();
    let addr = 0x3000 - 7;
    let segs = space.translate(addr, TASK_INFO_SIZE);
    let mut mem = space.mem();
    assert_eq!(sys_task_info(&segs, &stored, 1_250, &mut mem), 0);
    let first = space.read(&mem, addr, TASK_INFO_SIZE);
    assert_eq!(sys_task_info(&segs, &stored, 1_400, &mut mem), 0);
    let second = space.read(&mem, addr, TASK_INFO_SIZE);
    let t1 = u64::from_le_bytes(first[2008..2016].try_into().unwrap());
    let t2 = u64::from_le_bytes(second[2008..2016].try_into().unwrap());
    assert_eq!(t1, 250);
    assert_eq!(t2, 400);
    assert_eq!(t2 - t1, 150);
    assert_eq!(stored.time, 1_000);
    assert_eq!(stored.snapshot(1_400).time, 400);
    assert_eq!(stored.snapshot(1_400).syscall_times, stored.syscall_times);
    assert_eq!(stored.snapshot(1_400).status, TaskStatus::Running);
}

#[test]
fn copy_exactly_filling_segments() {
    let mut mem = vec![0u8; 32];
    let segs = vec![Segment { start: 20, len: 3 }, Segment { start: 2, len: 2 }];
    let data = vec![1u8, 2, 3, 4, 5];
    assert!(copy_kernel_result_to_user_space(&mut mem, &segs, &data));
    assert_eq!(&mem[20..23], &[1u8, 2, 3]);
    assert_eq!(&mem[2..4], &[4u8, 5]);
    assert_eq!(mem.iter().filter(|b| **b != 0).count(), 5);
}

#[test]
fn copy_skips_empty_segments() {
    let mut mem = vec![0u8; 16];
    let segs = vec![
        Segment { start: 0, len: 0 },
        Segment { start: 8, len: 2 },
        Segment { start: 9, len: 0 },
        Segment { start: 1, len: 4 },
    ];
    let data = vec![9u8, 8, 7, 6];
    assert!(copy_kernel_result_to_user_space(&mut mem, &segs, &data));
    assert_eq!(&mem[8..10], &[9u8, 8]);
    assert_eq!(&mem[1..3], &[7u8, 6]);
    assert_eq!(mem[3], 0);
}

#[test]
fn copy_rejects_overlapping_segments() {
    let mut mem = vec![0u8; 16];
    let segs = vec![Segment { start: 4, len: 4 }, Segment { start: 6, len: 4 }];
    assert!(!copy_kernel_result_to_user_space(&mut mem, &segs, &vec![1u8; 8]));
    assert_eq!(mem, vec![0u8; 16]);
}

#[test]
fn copy_rejects_segment_outside_memory() {
    let mut mem = vec![0u8; 16];
    let segs = vec![Segment { start: 0, len: 4 }, Segment { start: 14, len: 4 }];
    assert!(!copy_kernel_result_to_user_space(&mut mem, &segs, &vec![1u8; 6]));
    assert_eq!(mem, vec![0u8; 16]);
    let far = vec![Segment { start: usize::MAX, len: 2 }];
    assert!(!copy_kernel_result_to_user_space(&mut mem, &far, &vec![1u8; 2]));
}

#[test]
fn copy_rejects_short_coverage() {
    let mut mem = vec![0u8; 16];
    let segs = vec![Segment { start: 0, len: 2 }, Segment { start: 8, len: 3 }];
    assert!(!copy_kernel_result_to_user_space(&mut mem, &segs, &vec![5u8; 6]));
    assert_eq!(mem, vec![0u8; 16]);
    assert!(copy_kernel_result_to_user_space(&mut mem, &segs, &vec![5u8; 5]));
}

#[test]
fn copy_of_nothing_always_succeeds() {
    let mut mem = vec![0u8; 4];
    assert!(copy_kernel_result_to_user_space(&mut mem, &Vec::new(), &Vec::new()));
    assert_eq!(mem, vec![0u8; 4]);
}

#[test]
fn task_info_into_undercovered_destination_fails() {
    let stored = stored_info(5);
    let space = AddressSpace::new();
    let mut mem = space.mem();
    let segs = space.translate(0x1000, TASK_INFO_SIZE - 1);
    assert_eq!(sys_task_info(&segs, &stored, 10, &mut mem), -1);
    assert!(mem.iter().all(|b| *b == 0xEE));
}
