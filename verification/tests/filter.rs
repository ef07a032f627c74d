use veloce::bpf_filter::{attach_gpu_filter, bpf_insn, compile_bpf_program, filter_attached};
use veloce::bpf_filter::{filter_loaded, get_uvm_major, FilterStep};

fn parts(i: &bpf_insn) -> (u8, u8, i16, i32) {
    (i.code, i.dst_reg, i.off, i.imm)
}

/// Runs a program on a device as the kernel does.
fn verdict(program: &[bpf_insn], major: i32, minor: i32) -> i32 {
    let mut regs = [0i32; 16];
    let mut at = 0i64;
    loop {
        let i = &program[at as usize];
        let dst = (i.dst_reg & 15) as usize;
        at += 1;
        match i.code {
            0x61 => regs[dst] = if i.off == 4 { major } else { minor },
            0x15 if regs[dst] == i.imm => at += i.off as i64,
            0x55 if regs[dst] != i.imm => at += i.off as i64,
            0x15 | 0x55 => {}
            0xb7 => regs[dst] = i.imm,
            0x95 => return regs[0],
            code => panic!("instruction {code}"),
        }
    }
}

#[test]
fn program_is_laid_out_as_the_kernel_wants_it() {
    let program = compile_bpf_program(&vec![3], None);
    let expected = vec![
        (0x61, 0x12, 4, 0),
        (0x61, 0x13, 8, 0),
        (0x15, 2, 8, 1),
        (0x15, 2, 7, 5),
        (0x15, 2, 6, 136),
        (0x55, 2, 5, 195),
        (0x15, 3, 4, 255),
        (0x15, 3, 3, 254),
        (0x15, 3, 2, 3),
        (0xb7, 0, 0, 0),
        (0x95, 0, 0, 0),
        (0xb7, 0, 0, 1),
        (0x95, 0, 0, 0),
    ];
    assert_eq!(program.iter().map(parts).collect::<Vec<_>>(), expected);
}

#[test]
fn only_the_given_devices_are_allowed() {
    let program = compile_bpf_program(&vec![0, 2], Some(511));
    for (major, minor, allowed) in [
        (195, 0, 1),
        (195, 1, 0),
        (195, 2, 1),
        (195, 254, 1),
        (195, 255, 1),
        (195, 253, 0),
        (511, 0, 1),
        (1, 3, 1),
        (5, 0, 1),
        (136, 9, 1),
        (8, 0, 1),
    ] {
        assert_eq!(verdict(&program, major, minor), allowed, "{major}:{minor}");
    }
    let none = compile_bpf_program(&vec![], None);
    assert_eq!(verdict(&none, 195, 0), 0);
    assert_eq!(verdict(&none, 511, 0), 1);
}

#[test]
fn finds_the_major_of_unified_memory() {
    let devices = "Character devices:\n  1 mem\n195 nvidia-frontend\n511 nvidia-uvm\n";
    assert_eq!(get_uvm_major(devices), Some(511));
    assert_eq!(get_uvm_major("x nvidia-uvm\n 77 nvidia-uvm"), Some(77));
    assert_eq!(get_uvm_major("5 nvidia-uvm tools"), None);
    assert_eq!(get_uvm_major(""), None);
}

#[test]
fn filters_are_loaded_and_then_attached() {
    match attach_gpu_filter(&vec![1], None) {
        FilterStep::Load { insns } => assert_eq!(insns.len(), 13),
        _ => panic!("not loaded"),
    }
    match filter_loaded("/g/job-1", 9, "") {
        FilterStep::Attach { cgroup_path, prog_fd } => {
            assert_eq!((cgroup_path.as_str(), prog_fd), ("/g/job-1", 9));
        }
        _ => panic!("not attached"),
    }
    match filter_loaded("/g", -1, "denied") {
        FilterStep::Failed { reason } => {
            assert_eq!(reason, "Failed to load BPF program: denied");
        }
        _ => panic!("no failure"),
    }
    assert!(matches!(filter_attached(true, 0, ""), FilterStep::Attached));
    match filter_attached(true, -1, "busy") {
        FilterStep::Failed { reason } => {
            assert_eq!(reason, "Failed to attach BPF program to cgroup: busy");
        }
        _ => panic!("no failure"),
    }
    match filter_attached(false, 0, "gone") {
        FilterStep::Failed { reason } => {
            assert_eq!(reason, "Failed to open cgroup directory for attachment");
        }
        _ => panic!("no failure"),
    }
}
