//! The seccomp layer: the system calls a normal program never needs, and the
//! filter that refuses them.
//!
//! Which calls are refused, and how, is decided here. Their numbers depend on
//! the architecture and come from the caller; the filter program itself is
//! compiled by `seccompiler`.

use seccompiler::{BpfProgram, SeccompAction, SeccompFilter, TargetArch};
use vstd::prelude::*;

verus! {

/// A system call the sandbox refuses.
#[derive(Debug, Clone, Copy, PartialEq, Eq, Structural)]
pub enum Syscall {
    Ptrace,
    AddKey,
    RequestKey,
    Keyctl,
    KexecLoad,
    KexecFileLoad,
    InitModule,
    FinitModule,
    DeleteModule,
    Bpf,
    PerfEventOpen,
    Userfaultfd,
    Swapon,
    Swapoff,
    Reboot,
    Mount,
    Umount2,
    PivotRoot,
    Setns,
    Unshare,
    ProcessVmReadv,
    ProcessVmWritev,
    OpenByHandleAt,
    Acct,
}

/// The refused calls: tracing other processes, the kernel keyring, loading
/// kernels, modules and eBPF programs, performance counters, userfaultfd,
/// swap and reboot, mounts and namespace changes, reading and writing other
/// processes' memory, opening files by handle, and process accounting.
pub open spec fn denied_spec() -> Seq<Syscall> {
    seq![
        Syscall::Ptrace,
        Syscall::AddKey,
        Syscall::RequestKey,
        Syscall::Keyctl,
        Syscall::KexecLoad,
        Syscall::KexecFileLoad,
        Syscall::InitModule,
        Syscall::FinitModule,
        Syscall::DeleteModule,
        Syscall::Bpf,
        Syscall::PerfEventOpen,
        Syscall::Userfaultfd,
        Syscall::Swapon,
        Syscall::Swapoff,
        Syscall::Reboot,
        Syscall::Mount,
        Syscall::Umount2,
        Syscall::PivotRoot,
        Syscall::Setns,
        Syscall::Unshare,
        Syscall::ProcessVmReadv,
        Syscall::ProcessVmWritev,
        Syscall::OpenByHandleAt,
        Syscall::Acct,
    ]
}

/// The system calls the sandbox refuses, in a fixed order.
pub fn denied_syscalls() -> (r: Vec<Syscall>)
    ensures
        r@ == denied_spec(),
{
    let r = vec![
        Syscall::Ptrace,
        Syscall::AddKey,
        Syscall::RequestKey,
        Syscall::Keyctl,
        Syscall::KexecLoad,
        Syscall::KexecFileLoad,
        Syscall::InitModule,
        Syscall::FinitModule,
        Syscall::DeleteModule,
        Syscall::Bpf,
        Syscall::PerfEventOpen,
        Syscall::Userfaultfd,
        Syscall::Swapon,
        Syscall::Swapoff,
        Syscall::Reboot,
        Syscall::Mount,
        Syscall::Umount2,
        Syscall::PivotRoot,
        Syscall::Setns,
        Syscall::Unshare,
        Syscall::ProcessVmReadv,
        Syscall::ProcessVmWritev,
        Syscall::OpenByHandleAt,
        Syscall::Acct,
    ];
    assert(r@ =~= denied_spec());
    r
}

/// The architecture a filter is compiled for.
#[derive(Debug, Clone, Copy, PartialEq, Eq, Structural)]
pub enum Arch {
    X86_64,
    Aarch64,
}

/// The error a refused call returns: `EPERM`.
pub const DENIED_ERRNO: u32 = 1;

/// The program, as instructions of code, jump-if-true offset, jump-if-false
/// offset and constant, that `seccompiler` compiles from a filter that refuses each call
/// numbered in `denied` with `errno` and allows every other, for `arch`, or
/// why it could not.
pub uninterp spec fn seccomp_program_of(denied: Seq<i64>, errno: u32, arch: Arch) -> Result<Seq<(u16, u8, u8, u32)>, Seq<char>>;

/// Compiles, with `seccompiler::SeccompFilter::new` and the conversion into a
/// `BpfProgram`, a filter that refuses each call numbered in `denied` with
/// `errno` (and no further conditions) and allows every other. The contract
/// names the program and the error text; it says nothing of their contents.
/// A number outside `u32` makes the compiler panic, so none is allowed.
#[verifier::external_body]
fn seccomp_program(denied: &Vec<i64>, errno: u32, arch: Arch) -> (r: Result<Vec<(u16, u8, u8, u32)>, String>)
    requires
        forall|i: int| 0 <= i < denied@.len() ==> 0 <= #[trigger] denied@[i] <= u32::MAX,
    ensures
        match r {
            Ok(p) => seccomp_program_of(denied@, errno, arch) == Ok::<Seq<(u16, u8, u8, u32)>, Seq<char>>(p@),
            Err(e) => seccomp_program_of(denied@, errno, arch) == Err::<Seq<(u16, u8, u8, u32)>, Seq<char>>(e@),
        },
{
    let rules = denied.iter().map(|nr| (*nr, Vec::new())).collect();
    let target = match arch {
        Arch::X86_64 => TargetArch::x86_64,
        Arch::Aarch64 => TargetArch::aarch64,
    };
    let filter = SeccompFilter::new(rules, SeccompAction::Allow, SeccompAction::Errno(errno), target);
    let program = BpfProgram::try_from(filter.map_err(|e| e.to_string())?).map_err(|e| e.to_string())?;
    Ok(program.iter().map(|f| (f.code, f.jt, f.jf, f.k)).collect())
}

/// The filter program for the refused calls, given their numbers on `arch`
/// (one for each of `denied_syscalls`, in its order): each refused with
/// `EPERM`, every other call allowed.
pub fn build_seccomp_filter(numbers: &Vec<i64>, arch: Arch) -> (r: Result<Vec<(u16, u8, u8, u32)>, String>)
    requires
        forall|i: int| 0 <= i < numbers@.len() ==> 0 <= #[trigger] numbers@[i] <= u32::MAX,
    ensures
        match r {
            Ok(p) => seccomp_program_of(numbers@, DENIED_ERRNO, arch) == Ok::<Seq<(u16, u8, u8, u32)>, Seq<char>>(p@),
            Err(e) => seccomp_program_of(numbers@, DENIED_ERRNO, arch) == Err::<Seq<(u16, u8, u8, u32)>, Seq<char>>(e@),
        },
{
    seccomp_program(numbers, DENIED_ERRNO, arch)
}

} // verus!
