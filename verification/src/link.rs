//! The target architectures, and what assembling and linking for each needs:
//! the compiler drivers tried in turn, and the packages that provide one.
//! Running the driver is the caller's part.
use vstd::prelude::*;
use vstd::string::*;
use crate::text::push_str;

verus! {

#[derive(Debug, Clone, Copy, PartialEq, Eq)]
pub enum Target {
    X86_64,
    RiscV64,
}

pub open spec fn target_name(t: Target) -> Seq<char> {
    match t {
        Target::X86_64 => "x86_64"@,
        Target::RiscV64 => "riscv64"@,
    }
}

pub open spec fn drivers(t: Target) -> Seq<Seq<char>> {
    match t {
        Target::X86_64 => seq!["cc"@, "gcc"@, "clang"@],
        Target::RiscV64 => seq![
            "riscv64-linux-gnu-gcc"@,
            "riscv64-unknown-linux-gnu-gcc"@,
            "riscv64-elf-gcc"@,
            "riscv64-linux-gnu-gcc-13"@,
        ],
    }
}

pub open spec fn install_packages(t: Target) -> Seq<char> {
    match t {
        Target::X86_64 => "gcc"@,
        Target::RiscV64 => "gcc-riscv64-linux-gnu binutils-riscv64-linux-gnu"@,
    }
}

impl Target {
    /// The name of the architecture, as the command line writes it.
    pub fn name(self) -> (r: &'static str)
        ensures
            r@ == target_name(self),
    {
        match self {
            Target::X86_64 => "x86_64",
            Target::RiscV64 => "riscv64",
        }
    }
}

/// The assembler/linker drivers to try for a target, in order: the first
/// one found is used.
pub fn candidate_drivers(target: Target) -> (r: Vec<&'static str>)
    ensures
        r@.len() == drivers(target).len(),
        forall|i: int| 0 <= i < r@.len() ==> (#[trigger] r@[i])@ == drivers(target)[i],
{
    match target {
        Target::X86_64 => vec!["cc", "gcc", "clang"],
        Target::RiscV64 => vec![
            "riscv64-linux-gnu-gcc",
            "riscv64-unknown-linux-gnu-gcc",
            "riscv64-elf-gcc",
            "riscv64-linux-gnu-gcc-13",
        ],
    }
}

/// The packages to install when no driver for `target` is found.
pub fn install_hint(target: Target) -> (r: &'static str)
    ensures
        r@ == install_packages(target),
{
    match target {
        Target::X86_64 => "gcc",
        Target::RiscV64 => "gcc-riscv64-linux-gnu binutils-riscv64-linux-gnu",
    }
}

/// The arguments given to the driver: the assembly file, the output, a
/// static program without the C library entered at `_start`, a stack that
/// is not executable, and on x86_64 no position-independent executable.
pub open spec fn link_args_spec(t: Target, asm_path: Seq<char>, out: Seq<char>) -> Seq<Seq<char>> {
    seq![asm_path, "-o"@, out, "-static"@, "-nostdlib"@, "-e"@, "_start"@, "-Wa,--noexecstack"@] + if t is X86_64 {
        seq!["-no-pie"@]
    } else {
        Seq::empty()
    }
}

pub open spec fn strings_view(v: Seq<String>) -> Seq<Seq<char>> {
    v.map_values(|s: String| s@)
}

/// The driver names of a target joined by `", "`, the first `n` of them.
pub open spec fn joined(d: Seq<Seq<char>>, n: int) -> Seq<char>
    decreases n,
{
    if n <= 0 {
        Seq::empty()
    } else if n == 1 {
        d[0]
    } else {
        joined(d, n - 1) + ", "@ + d[n - 1]
    }
}

/// What is said when no driver is found: the drivers looked for, where the
/// assembly was left and what to install.
pub open spec fn missing_driver_text(t: Target, asm_path: Seq<char>) -> Seq<char> {
    "Nie znaleziono asemblera/linkera dla "@ + target_name(t) + " (szukano: "@ + joined(drivers(t), drivers(t).len() as int)
        + ").\nWygenerowany asembler zostawiłem w "@ + asm_path
        + " - możesz go zasemblować ręcznie\npo zainstalowaniu odpowiedniego toolchaina, np.:\n  apt-get install "@
        + install_packages(t)
}

fn to_string(s: &str) -> (r: String)
    ensures
        r@ == s@,
{
    let mut r = String::new();
    push_str(&mut r, s);
    r
}

/// The arguments to run the driver with, to make `out` from `asm_path`.
pub fn link_args(target: Target, asm_path: &str, out: &str) -> (v: Vec<String>)
    ensures
        strings_view(v@) == link_args_spec(target, asm_path@, out@),
{
    let mut v: Vec<String> = Vec::new();
    v.push(to_string(asm_path));
    v.push(to_string("-o"));
    v.push(to_string(out));
    v.push(to_string("-static"));
    v.push(to_string("-nostdlib"));
    v.push(to_string("-e"));
    v.push(to_string("_start"));
    v.push(to_string("-Wa,--noexecstack"));
    if let Target::X86_64 = target {
        v.push(to_string("-no-pie"));
    }
    proof {
        reveal_strlit("-o");
        reveal_strlit("-static");
        reveal_strlit("-nostdlib");
        reveal_strlit("-e");
        reveal_strlit("_start");
        reveal_strlit("-Wa,--noexecstack");
        reveal_strlit("-no-pie");
    }
    assert(strings_view(v@) =~= link_args_spec(target, asm_path@, out@));
    v
}

/// The message for a target whose drivers are all missing; the assembly
/// was left at `asm_path`.
pub fn missing_driver_message(target: Target, asm_path: &str) -> (m: String)
    ensures
        m@ == missing_driver_text(target, asm_path@),
{
    let d = candidate_drivers(target);
    let mut m = String::new();
    push_str(&mut m, "Nie znaleziono asemblera/linkera dla ");
    push_str(&mut m, target.name());
    push_str(&mut m, " (szukano: ");
    let ghost m0 = m@;
    let mut i: usize = 0;
    while i < d.len()
        invariant
            i <= d@.len(),
            d@.len() == drivers(target).len(),
            forall|k: int| 0 <= k < d@.len() ==> (#[trigger] d@[k])@ == drivers(target)[k],
            m@ == m0 + joined(drivers(target), i as int),
        decreases d@.len() - i,
    {
        if i > 0 {
            push_str(&mut m, ", ");
        }
        push_str(&mut m, d[i]);
        i = i + 1;
    }
    push_str(&mut m, ").\nWygenerowany asembler zostawiłem w ");
    push_str(&mut m, asm_path);
    push_str(&mut m, " - możesz go zasemblować ręcznie\npo zainstalowaniu odpowiedniego toolchaina, np.:\n  apt-get install ");
    push_str(&mut m, install_hint(target));
    m
}

} // verus!
