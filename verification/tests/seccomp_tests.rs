use astraea::seccomp::{allowed_syscall_numbers, seccomp_program, syscall_number, SockFilter};

fn table() -> Vec<(String, i32)> {
    vec![
        ("read".to_string(), 0),
        ("write".to_string(), 1),
        ("ptrace".to_string(), 101),
        ("read".to_string(), 999),
    ]
}

#[test]
fn syscall_numbers_by_first_name() {
    assert_eq!(syscall_number(&table(), "read"), Some(0));
    assert_eq!(syscall_number(&table(), "ptrace"), Some(101));
    assert_eq!(syscall_number(&table(), "bpf"), None);
}

#[test]
fn allow_list_is_sorted_without_repeats() {
    let base = vec![60usize, 1, 0, 60, 231];
    let names = vec!["ptrace".to_string(), "bogus".to_string(), "write".to_string(), "nope".to_string()];
    let (allowed, unknown) = allowed_syscall_numbers(&base, &table(), &names);
    assert_eq!(allowed, vec![0, 1, 60, 101, 231]);
    assert_eq!(unknown, vec!["bogus".to_string(), "nope".to_string()]);
}

#[test]
fn empty_allow_list() {
    let (allowed, unknown) = allowed_syscall_numbers(&Vec::new(), &table(), &Vec::new());
    assert!(allowed.is_empty());
    assert!(unknown.is_empty());
}

#[test]
fn allow_value_is_the_kernel_constant() {
    let prog = seccomp_program(&vec![3]);
    assert_eq!(prog[2].k, 0x7fff_0000);
    assert_eq!(prog[3].k, 0x8000_0000);
}

#[test]
fn filter_program_layout() {
    let prog = seccomp_program(&vec![0, 60]);
    let ret_allow = SockFilter { code: 0x06, jt: 0, jf: 0, k: 0x7fff_0000 };
    let ret_kill = SockFilter { code: 0x06, jt: 0, jf: 0, k: 0x8000_0000 };
    assert_eq!(
        prog,
        vec![
            SockFilter { code: 0x20, jt: 0, jf: 0, k: 0 },
            SockFilter { code: 0x15, jt: 0, jf: 1, k: 0 },
            ret_allow,
            SockFilter { code: 0x15, jt: 0, jf: 1, k: 60 },
            ret_allow,
            ret_kill,
        ]
    );
    assert_eq!(seccomp_program(&Vec::new()), vec![SockFilter { code: 0x20, jt: 0, jf: 0, k: 0 }, ret_kill]);
}

fn run(prog: &[SockFilter], nr: u32) -> Option<u32> {
    let mut pc = 0usize;
    let mut acc = 0u32;
    while pc < prog.len() {
        let ins = prog[pc];
        match ins.code {
            0x06 => return Some(ins.k),
            0x15 => pc += 1 + if acc == ins.k { ins.jt as usize } else { ins.jf as usize },
            0x20 => {
                acc = nr;
                pc += 1;
            }
            _ => return None,
        }
    }
    None
}

#[test]
fn filter_allows_exactly_the_listed_calls() {
    let prog = seccomp_program(&vec![0, 1, 60, 231]);
    for nr in [0u32, 1, 60, 231] {
        assert_eq!(run(&prog, nr), Some(0x7fff_0000));
    }
    for nr in [2u32, 59, 101, 500] {
        assert_eq!(run(&prog, nr), Some(0x8000_0000));
    }
    assert_eq!(run(&seccomp_program(&Vec::new()), 0), Some(0x8000_0000));
}

#[test]
fn allow_list_ignores_order_repeats_and_unknown_names() {
    let base = vec![60usize, 0];
    let a = vec!["write".to_string(), "ptrace".to_string()];
    let b = vec!["ptrace".to_string(), "bogus".to_string(), "write".to_string(), "ptrace".to_string()];
    assert_eq!(allowed_syscall_numbers(&base, &table(), &a).0, allowed_syscall_numbers(&base, &table(), &b).0);
}
