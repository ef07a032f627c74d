//! The device filter that confines a job to the GPUs it was given: an eBPF program for the
//! kernel's cgroup device hook.

use vstd::prelude::*;

use crate::numbers::decimal;
use crate::numbers::parse_u32;
use crate::numbers::parsed_u32;
use crate::pieces::is_word;
use crate::pieces::joined;
use crate::pieces::lines;
use crate::pieces::lines_of;
use crate::pieces::split_whitespace;
use crate::pieces::words;
use crate::text::str_eq;
use crate::text::texts;

verus! {

/// One eBPF instruction. The low four bits of `dst_reg` name the destination register, the
/// high four bits the source register.
#[derive(Clone, Copy, Debug)]
#[allow(non_camel_case_types)]
pub struct bpf_insn {
    pub code: u8,
    pub dst_reg: u8,
    pub off: i16,
    pub imm: i32,
}

/// Load a 32-bit word from the context.
pub const LOAD_WORD: u8 = 0x61;

/// Jump if the register equals the immediate.
pub const JUMP_EQ: u8 = 0x15;

/// Jump if the register differs from the immediate.
pub const JUMP_NE: u8 = 0x55;

/// Put the immediate into the register.
pub const MOVE: u8 = 0xb7;

/// Return register 0.
pub const EXIT: u8 = 0x95;

/// An instruction on register `dst`, which reads from register `src` where it reads one.
pub open spec fn insn_of(code: u8, dst: int, src: int, off: int, imm: i32) -> bpf_insn {
    bpf_insn { code, dst_reg: (dst + 16 * src) as u8, off: off as i16, imm }
}

fn insn(code: u8, dst: u8, src: u8, off: i16, imm: i32) -> (r: bpf_insn)
    requires
        dst < 16,
        src < 16,
    ensures
        r == insn_of(code, dst as int, src as int, off as int, imm),
{
    assert(dst | (src << 4) == dst + 16 * src) by (bit_vector)
        requires
            dst < 16,
            src < 16,
    ;
    bpf_insn { code, dst_reg: dst | (src << 4), off, imm }
}

/// One way into the allowing end of the program: the comparison `code` holds between the
/// register (2: the device's major number, 3: its minor number) and the immediate.
#[derive(Clone, Copy)]
pub struct AllowTest {
    pub code: u8,
    pub reg: u8,
    pub imm: i32,
}

pub open spec fn allow_if(code: u8, reg: u8, imm: i32) -> AllowTest {
    AllowTest { code, reg, imm }
}

/// The tests in the order in which they are made: system devices, unified memory where the
/// machine has it, whatever is no Nvidia device, Nvidia's control devices, the job's GPUs.
pub open spec fn allow_tests(gpu_ids: Seq<u32>, uvm_major: Option<u32>) -> Seq<AllowTest> {
    let system = seq![
        allow_if(JUMP_EQ, 2, 1),
        allow_if(JUMP_EQ, 2, 5),
        allow_if(JUMP_EQ, 2, 136),
    ];
    let uvm = match uvm_major {
        Some(major) => seq![allow_if(JUMP_EQ, 2, major as i32)],
        None => Seq::empty(),
    };
    let nvidia = seq![
        allow_if(JUMP_NE, 2, 195),
        allow_if(JUMP_EQ, 3, 255),
        allow_if(JUMP_EQ, 3, 254),
    ];
    system + uvm + nvidia + Seq::new(
        gpu_ids.len(),
        |i: int| allow_if(JUMP_EQ, 3, gpu_ids[i] as i32),
    )
}

/// The program that makes the tests `t`: it loads the device's numbers, jumps to its allowing
/// end from the first test that holds, and denies where none does.
pub open spec fn program_of(t: Seq<AllowTest>) -> Seq<bpf_insn> {
    seq![insn_of(LOAD_WORD, 2, 1, 4, 0), insn_of(LOAD_WORD, 3, 1, 8, 0)] + Seq::new(
        t.len(),
        |i: int| insn_of(t[i].code, t[i].reg as int, 0, t.len() - i + 1, t[i].imm),
    ) + seq![
        insn_of(MOVE, 0, 0, 0, 0),
        insn_of(EXIT, 0, 0, 0, 0),
        insn_of(MOVE, 0, 0, 0, 1),
        insn_of(EXIT, 0, 0, 0, 0),
    ]
}

/// The filter for a job that was given the GPUs `gpu_ids`.
pub open spec fn device_program(gpu_ids: Seq<u32>, uvm_major: Option<u32>) -> Seq<bpf_insn> {
    program_of(allow_tests(gpu_ids, uvm_major))
}

/// As many GPUs as the jump offsets of the program can span.
pub open spec fn gpus_fit(gpu_ids: Seq<u32>) -> bool {
    gpu_ids.len() <= 32750
}

fn collect_tests(gpu_ids: &Vec<u32>, uvm_major: Option<u32>) -> (t: Vec<AllowTest>)
    ensures
        t@ == allow_tests(gpu_ids@, uvm_major),
{
    let mut t: Vec<AllowTest> = Vec::new();
    t.push(AllowTest { code: JUMP_EQ, reg: 2, imm: 1 });
    t.push(AllowTest { code: JUMP_EQ, reg: 2, imm: 5 });
    t.push(AllowTest { code: JUMP_EQ, reg: 2, imm: 136 });
    if let Some(major) = uvm_major {
        t.push(AllowTest { code: JUMP_EQ, reg: 2, imm: #[verifier::truncate] (major as i32) });
    }
    t.push(AllowTest { code: JUMP_NE, reg: 2, imm: 195 });
    t.push(AllowTest { code: JUMP_EQ, reg: 3, imm: 255 });
    t.push(AllowTest { code: JUMP_EQ, reg: 3, imm: 254 });
    let ghost fixed = t@;
    let mut i: usize = 0;
    while i < gpu_ids.len()
        invariant
            i <= gpu_ids@.len(),
            t@ == fixed + Seq::new(i as nat, |k: int| allow_if(JUMP_EQ, 3, gpu_ids@[k] as i32)),
        decreases gpu_ids@.len() - i,
    {
        t.push(
            AllowTest { code: JUMP_EQ, reg: 3, imm: #[verifier::truncate] (gpu_ids[i] as i32) },
        );
        i = i + 1;
        assert(t@ =~= fixed + Seq::new(
            i as nat,
            |k: int| allow_if(JUMP_EQ, 3, gpu_ids@[k] as i32),
        ));
    }
    assert(t@ =~= allow_tests(gpu_ids@, uvm_major));
    t
}

pub fn compile_bpf_program(gpu_ids: &Vec<u32>, uvm_major: Option<u32>) -> (r: Vec<bpf_insn>)
    requires
        gpus_fit(gpu_ids@),
    ensures
        r@ == device_program(gpu_ids@, uvm_major),
{
    let t: Vec<AllowTest> = collect_tests(gpu_ids, uvm_major);
    let n: usize = t.len();
    assert(n <= 32757);
    let mut insns: Vec<bpf_insn> = Vec::new();
    insns.push(insn(LOAD_WORD, 2, 1, 4, 0));
    insns.push(insn(LOAD_WORD, 3, 1, 8, 0));
    let ghost loads = insns@;
    let ghost jump = |i: int| insn_of(t@[i].code, t@[i].reg as int, 0, n - i + 1, t@[i].imm);
    let mut i: usize = 0;
    while i < n
        invariant
            i <= n,
            n == t@.len(),
            n <= 32757,
            forall|k: int| 0 <= k < n ==> (#[trigger] t@[k]).reg < 16,
            jump == |i: int| insn_of(t@[i].code, t@[i].reg as int, 0, n - i + 1, t@[i].imm),
            insns@ == loads + Seq::new(i as nat, jump),
        decreases n - i,
    {
        let off: i16 = (n - i + 1) as i16;
        insns.push(insn(t[i].code, t[i].reg, 0, off, t[i].imm));
        assert(insns@ =~= loads + Seq::new((i + 1) as nat, jump));
        i = i + 1;
    }
    insns.push(insn(MOVE, 0, 0, 0, 0));
    insns.push(insn(EXIT, 0, 0, 0, 0));
    insns.push(insn(MOVE, 0, 0, 0, 1));
    insns.push(insn(EXIT, 0, 0, 0, 0));
    assert(insns@ =~= program_of(t@));
    insns
}

/// The 64-bit register value that a signed 32-bit immediate stands for.
pub open spec fn extended(imm: i32) -> int {
    if imm < 0 {
        imm + 0x1_0000_0000_0000_0000
    } else {
        imm as int
    }
}

/// What the kernel makes of a program that is asked about the device `major`:`minor`: the
/// value with which it exits, when it starts at `pc` with the registers `regs`.
pub open spec fn run(p: Seq<bpf_insn>, pc: int, regs: Map<int, int>, major: u32, minor: u32) -> Option<
    int,
>
    decreases
            if pc < p.len() {
                p.len() - pc
            } else {
                0
            },
{
    if pc < 0 || pc >= p.len() {
        None
    } else {
        let i = p[pc];
        let dst = (i.dst_reg % 16) as int;
        if i.code == EXIT {
            Some(regs[0])
        } else if i.code == MOVE {
            run(p, pc + 1, regs.insert(dst, extended(i.imm)), major, minor)
        } else if i.code == LOAD_WORD && i.off == 4 {
            run(p, pc + 1, regs.insert(dst, major as int), major, minor)
        } else if i.code == LOAD_WORD && i.off == 8 {
            run(p, pc + 1, regs.insert(dst, minor as int), major, minor)
        } else if i.off >= 0 && (i.code == JUMP_EQ && regs[dst] == extended(i.imm) || i.code
            == JUMP_NE && regs[dst] != extended(i.imm)) {
            run(p, pc + 1 + i.off, regs, major, minor)
        } else if i.code == JUMP_EQ || i.code == JUMP_NE {
            run(p, pc + 1, regs, major, minor)
        } else {
            None
        }
    }
}

/// A test holds of the device `major`:`minor`.
pub open spec fn test_holds(t: AllowTest, major: u32, minor: u32) -> bool {
    let value = if t.reg == 2 {
        major as int
    } else {
        minor as int
    };
    if t.code == JUMP_EQ {
        value == extended(t.imm)
    } else {
        value != extended(t.imm)
    }
}

/// A test as the filter makes them: an equality or inequality on the major or minor number.
pub open spec fn proper_test(t: AllowTest) -> bool {
    (t.code == JUMP_EQ || t.code == JUMP_NE) && (t.reg == 2 || t.reg == 3)
}

proof fn lemma_run_tests(t: Seq<AllowTest>, i: int, regs: Map<int, int>, major: u32, minor: u32)
    requires
        t.len() <= 32757,
        0 <= i <= t.len(),
        forall|k: int| 0 <= k < t.len() ==> proper_test(#[trigger] t[k]),
        regs[2] == major,
        regs[3] == minor,
    ensures
        run(program_of(t), 2 + i, regs, major, minor) == Some(
            if exists|k: int| i <= k < t.len() && test_holds(#[trigger] t[k], major, minor) {
                1int
            } else {
                0
            },
        ),
    decreases t.len() - i,
{
    let p = program_of(t);
    let n: int = t.len() as int;
    assert(p.len() == n + 6);
    assert(p[n + 2] == insn_of(MOVE, 0, 0, 0, 0));
    assert(p[n + 3] == insn_of(EXIT, 0, 0, 0, 0));
    assert(p[n + 4] == insn_of(MOVE, 0, 0, 0, 1));
    assert(p[n + 5] == insn_of(EXIT, 0, 0, 0, 0));
    if i == n {
        let denied = regs.insert(0, 0);
        assert(run(p, n + 3, denied, major, minor) == Some(0int));
        assert(run(p, n + 2, regs, major, minor) == Some(0int));
    } else {
        let here = p[2 + i];
        assert(here == insn_of(t[i].code, t[i].reg as int, 0, n - i + 1, t[i].imm));
        assert(proper_test(t[i]));
        assert(here.off == n - i + 1);
        assert(here.dst_reg % 16 == t[i].reg);
        if test_holds(t[i], major, minor) {
            let allowed = regs.insert(0, 1);
            assert(run(p, n + 5, allowed, major, minor) == Some(1int));
            assert(run(p, n + 4, regs, major, minor) == Some(1int));
            assert(2 + i + 1 + here.off == n + 4);
            assert(run(p, 2 + i, regs, major, minor) == run(p, n + 4, regs, major, minor));
        } else {
            lemma_run_tests(t, i + 1, regs, major, minor);
            assert(run(p, 2 + i, regs, major, minor) == run(p, 2 + i + 1, regs, major, minor));
        }
    }
}

/// What a job may open that was given the GPUs `gpu_ids`: every device that is not Nvidia's,
/// and of Nvidia's the control devices and the GPUs themselves. A GPU number or a unified
/// memory major of 2^31 or more lets nothing in: the comparison extends its sign.
pub open spec fn may_open(
    gpu_ids: Seq<u32>,
    uvm_major: Option<u32>,
    major: u32,
    minor: u32,
) -> bool {
    ||| major != 195
    ||| uvm_major == Some(major)
    ||| minor == 255
    ||| minor == 254
    ||| minor < 0x8000_0000 && gpu_ids.contains(minor)
}

proof fn lemma_extended_cast(u: u32)
    ensures
        u < 0x8000_0000 ==> extended(u as i32) == u,
        u >= 0x8000_0000 ==> extended(u as i32) > 0xffff_ffff,
{
    if u < 0x8000_0000 {
        assert((u as i32) >= 0 && (u as i32) as u32 == u) by (bit_vector)
            requires
                u < 0x8000_0000,
        ;
    } else {
        assert((u as i32) < 0) by (bit_vector)
            requires
                u >= 0x8000_0000,
        ;
    }
}

/// The filter lets a job open exactly the devices that it may open.
pub proof fn law_filter_allows_exactly_the_jobs_devices(
    gpu_ids: Seq<u32>,
    uvm_major: Option<u32>,
    major: u32,
    minor: u32,
)
    requires
        gpus_fit(gpu_ids),
    ensures
        run(device_program(gpu_ids, uvm_major), 0, Map::empty(), major, minor) == Some(
            if may_open(gpu_ids, uvm_major, major, minor) {
                1int
            } else {
                0
            },
        ),
{
    let t = allow_tests(gpu_ids, uvm_major);
    let p = program_of(t);
    let m: int = if uvm_major is Some {
        4
    } else {
        3
    };
    assert(t.len() == m + 3 + gpu_ids.len());
    assert(p[0] == insn_of(LOAD_WORD, 2, 1, 4, 0));
    assert(p[1] == insn_of(LOAD_WORD, 3, 1, 8, 0));
    let r1 = Map::<int, int>::empty().insert(2, major as int);
    let r2 = r1.insert(3, minor as int);
    assert(run(p, 1, r1, major, minor) == run(p, 2, r2, major, minor));
    assert(run(p, 0, Map::empty(), major, minor) == run(p, 1, r1, major, minor));
    assert forall|k: int| 0 <= k < t.len() implies proper_test(#[trigger] t[k]) by {}
    lemma_run_tests(t, 0, r2, major, minor);
    assert(t[m] == allow_if(JUMP_NE, 2, 195));
    assert(t[m + 1] == allow_if(JUMP_EQ, 3, 255));
    assert(t[m + 2] == allow_if(JUMP_EQ, 3, 254));
    let some_test = exists|k: int| 0 <= k < t.len() && test_holds(#[trigger] t[k], major, minor);
    if uvm_major is Some {
        lemma_extended_cast(uvm_major->0);
        assert(t[3] == allow_if(JUMP_EQ, 2, uvm_major->0 as i32));
    }
    if may_open(gpu_ids, uvm_major, major, minor) {
        if major != 195 {
            assert(test_holds(t[m], major, minor));
        } else if uvm_major == Some(major) {
            assert(test_holds(t[3], major, minor));
        } else if minor == 255 {
            assert(test_holds(t[m + 1], major, minor));
        } else if minor == 254 {
            assert(test_holds(t[m + 2], major, minor));
        } else {
            let i = choose|i: int| 0 <= i < gpu_ids.len() && gpu_ids[i] == minor;
            lemma_extended_cast(gpu_ids[i]);
            assert(t[m + 3 + i] == allow_if(JUMP_EQ, 3, gpu_ids[i] as i32));
            assert(test_holds(t[m + 3 + i], major, minor));
        }
    } else if some_test {
        let k = choose|k: int| 0 <= k < t.len() && test_holds(#[trigger] t[k], major, minor);
        if k >= m + 3 {
            let i = k - m - 3;
            assert(t[k] == allow_if(JUMP_EQ, 3, gpu_ids[i] as i32));
            lemma_extended_cast(gpu_ids[i]);
            assert(gpu_ids.contains(gpu_ids[i]));
        } else if k == 3 && uvm_major is Some {
        } else {
            assert(t[0] == allow_if(JUMP_EQ, 2, 1));
            assert(t[1] == allow_if(JUMP_EQ, 2, 5));
            assert(t[2] == allow_if(JUMP_EQ, 2, 136));
        }
        assert(false);
    }
}

/// What one line of the kernel's device list says of the unified memory driver.
pub open spec fn uvm_major_on(line: Seq<char>) -> Option<u32> {
    let w = words(line);
    if w.len() == 2 && w[1] == "nvidia-uvm"@ {
        parsed_u32(w[0])
    } else {
        None
    }
}

/// The first major number that one of the lines gives to the unified memory driver.
pub open spec fn first_uvm_major(lines: Seq<Seq<char>>) -> Option<u32>
    decreases lines.len(),
{
    if lines.len() == 0 {
        None
    } else if uvm_major_on(lines[0]) is Some {
        uvm_major_on(lines[0])
    } else {
        first_uvm_major(lines.skip(1))
    }
}

/// The major number of the unified memory driver, from the contents of `/proc/devices`.
pub fn get_uvm_major(devices: &str) -> (r: Option<u32>)
    ensures
        r == first_uvm_major(lines_of(devices@)),
{
    let rows: Vec<String> = lines(devices);
    let ghost all = texts(rows@);
    let mut i: usize = 0;
    assert(all.skip(0) =~= all);
    while i < rows.len()
        invariant
            i <= rows@.len(),
            all == texts(rows@),
            all == lines_of(devices@),
            first_uvm_major(all) == first_uvm_major(all.skip(i as int)),
        decreases rows@.len() - i,
    {
        let w: Vec<String> = split_whitespace(&rows[i]);
        assert(all[i as int] == rows@[i as int]@);
        assert(all.skip(i as int)[0] == all[i as int]);
        assert(all.skip(i as int).skip(1) =~= all.skip(i + 1));
        if w.len() == 2 && str_eq(&w[1], "nvidia-uvm") {
            assert(w@[0]@ == words(rows@[i as int]@)[0]);
            assert(w@[1]@ == words(rows@[i as int]@)[1]);
            let major: Option<u32> = parse_u32(&w[0]);
            if major.is_some() {
                return major;
            }
        } else {
            assert(w@.len() == 2 ==> w@[1]@ == words(rows@[i as int]@)[1]);
        }
        i = i + 1;
    }
    None
}

/// What is to be done next to put the filter in force.
pub enum FilterStep {
    /// Hand the program to the kernel.
    Load { insns: Vec<bpf_insn> },
    /// Attach the loaded program to the cgroup.
    Attach { cgroup_path: String, prog_fd: i32 },
    /// The filter is in force.
    Attached,
    /// It is not, for this reason.
    Failed { reason: String },
}

/// The first step towards confining the cgroup to the GPUs.
pub fn attach_gpu_filter(gpu_ids: &Vec<u32>, uvm_major: Option<u32>) -> (step: FilterStep)
    requires
        gpus_fit(gpu_ids@),
    ensures
        step matches FilterStep::Load { insns } && insns@ == device_program(gpu_ids@, uvm_major),
{
    FilterStep::Load { insns: compile_bpf_program(gpu_ids, uvm_major) }
}

/// The step after the kernel has answered `res` to the request to load the program; a
/// negative answer comes with the text of the error.
pub fn filter_loaded(cgroup_path: &str, res: i32, error: &str) -> (step: FilterStep)
    ensures
        res < 0 ==> (step matches FilterStep::Failed { reason } && reason@
            == "Failed to load BPF program: "@ + error@),
        res >= 0 ==> (step matches FilterStep::Attach { cgroup_path: path, prog_fd } && path@
            == cgroup_path@ && prog_fd == res),
{
    if res < 0 {
        let mut reason: String = "Failed to load BPF program: ".to_owned();
        reason.append(error);
        FilterStep::Failed { reason }
    } else {
        FilterStep::Attach { cgroup_path: cgroup_path.to_owned(), prog_fd: res }
    }
}

/// The step after the request to attach: `opened` says whether the cgroup's directory could
/// be opened, `res` is the kernel's answer.
pub fn filter_attached(opened: bool, res: i32, error: &str) -> (step: FilterStep)
    ensures
        !opened ==> (step matches FilterStep::Failed { reason } && reason@
            == "Failed to open cgroup directory for attachment"@),
        opened && res < 0 ==> (step matches FilterStep::Failed { reason } && reason@
            == "Failed to attach BPF program to cgroup: "@ + error@),
        opened && res >= 0 ==> step is Attached,
{
    if !opened {
        FilterStep::Failed { reason: "Failed to open cgroup directory for attachment".to_owned() }
    } else if res < 0 {
        let mut reason: String = "Failed to attach BPF program to cgroup: ".to_owned();
        reason.append(error);
        FilterStep::Failed { reason }
    } else {
        FilterStep::Attached
    }
}

/// Of Nvidia's devices, which have the major number 195, a job can open the GPUs that it was given
/// and the two control devices, and no others; devices of other drivers it can open all.
pub proof fn law_jobs_open_only_their_gpus(
    gpu_ids: Seq<u32>,
    uvm_major: Option<u32>,
    major: u32,
    minor: u32,
)
    requires
        gpus_fit(gpu_ids),
    ensures
        ({
            let allowed = run(device_program(gpu_ids, uvm_major), 0, Map::empty(), major, minor);
            &&& allowed == Some(1int) || allowed == Some(0int)
            &&& major != 195 ==> allowed == Some(1int)
            &&& major == 195 && uvm_major != Some(195u32) && minor != 254 && minor != 255
                && !gpu_ids.contains(minor) ==> allowed == Some(0int)
            &&& minor == 254 || minor == 255 ==> allowed == Some(1int)
            &&& gpu_ids.contains(minor) && minor < 0x8000_0000 ==> allowed == Some(1int)
        }),
{
    law_filter_allows_exactly_the_jobs_devices(gpu_ids, uvm_major, major, minor);
}

/// The major number of the unified memory driver is that which stands before its name on the first
/// line that gives it one.
pub proof fn law_the_driver_is_found_in_the_list(
    before: Seq<Seq<char>>,
    n: u32,
    after: Seq<Seq<char>>,
)
    requires
        forall|i: int| 0 <= i < before.len() ==> uvm_major_on(#[trigger] before[i]) is None,
    ensures
        first_uvm_major(before.push(decimal(n as nat) + " nvidia-uvm"@) + after) == Some(n),
        first_uvm_major(before) is None,
    decreases before.len(),
{
    let line = decimal(n as nat) + " nvidia-uvm"@;
    let all = before.push(line) + after;
    if before.len() == 0 {
        reveal_strlit(" nvidia-uvm");
        reveal_strlit("nvidia-uvm");
        let d = decimal(n as nat);
        let p = seq![d, "nvidia-uvm"@];
        crate::numbers::lemma_decimal_digits(n as nat);
        assert(is_word(d)) by {
            assert forall|i: int| 0 <= i < d.len() implies !crate::text::is_space(
                #[trigger] d[i],
            ) by {
                assert(crate::numbers::is_digit(d[i]));
            }
        }
        assert(is_word("nvidia-uvm"@));
        assert forall|i: int| 0 <= i < p.len() implies is_word(#[trigger] p[i]) by {
            if i == 0 {
                assert(p[0] == d);
            } else {
                assert(p[1] == "nvidia-uvm"@);
            }
        }
        crate::pieces::law_words_are_read(p);
        assert(p.drop_last() =~= seq![d]);
        assert(joined(seq![d], seq![' ']) == d);
        assert(joined(p, seq![' ']) =~= line);
        crate::numbers::law_read_undoes_decimal(n as nat);
        assert(all[0] == line);
    } else {
        assert(uvm_major_on(before[0]) is None);
        let rest = before.skip(1);
        assert forall|i: int| 0 <= i < rest.len() implies uvm_major_on(
            #[trigger] rest[i],
        ) is None by {
            assert(rest[i] == before[i + 1]);
        }
        law_the_driver_is_found_in_the_list(rest, n, after);
        assert(all[0] == before[0]);
        assert(all.skip(1) =~= rest.push(line) + after);
    }
}

} // verus!
