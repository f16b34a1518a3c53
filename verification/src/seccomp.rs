//! The system-call filter: the allow-list of system call numbers and the
//! classic-BPF program that the kernel runs on each system call.

use vstd::prelude::*;
use crate::policy::strings_view;
use crate::text::{chars_eq, to_chars};

verus! {

broadcast use vstd::seq_lib::group_seq_properties;

/// One classic-BPF instruction.
#[derive(Debug, Clone, Copy, PartialEq, Eq, Structural)]
pub struct SockFilter {
    pub code: u16,
    pub jt: u8,
    pub jf: u8,
    pub k: u32,
}

pub const BPF_ABS: u16 = 0x20;

pub const BPF_JEQ: u16 = 0x10;

pub const BPF_JMP: u16 = 0x05;

pub const BPF_K: u16 = 0x00;

pub const BPF_LD: u16 = 0x00;

pub const BPF_RET: u16 = 0x06;

pub const BPF_W: u16 = 0x00;

/// The filter verdict that lets a system call proceed
/// (`libc::SECCOMP_RET_ALLOW`). The contract claims the value that the libc
/// crate defines for Linux and Android.
#[verifier::external_body]
fn seccomp_ret_allow() -> (r: u32)
    ensures
        r == 0x7fff_0000,
{
    libc::SECCOMP_RET_ALLOW as u32
}

/// The filter verdict that kills the process making a system call
/// (`libc::SECCOMP_RET_KILL_PROCESS`). The contract claims the value that the
/// libc crate defines for Linux and Android.
#[verifier::external_body]
fn seccomp_ret_kill_process() -> (r: u32)
    ensures
        r == 0x8000_0000,
{
    libc::SECCOMP_RET_KILL_PROCESS as u32
}

/// The number of the first entry named `name` in a name/number table.
pub open spec fn table_lookup(table: Seq<(Seq<char>, i32)>, name: Seq<char>) -> Option<i32>
    decreases table.len(),
{
    if table.len() == 0 {
        None
    } else if table[0].0 == name {
        Some(table[0].1)
    } else {
        table_lookup(table.drop_first(), name)
    }
}

/// The plain values of a name/number table.
pub open spec fn table_view(t: Seq<(String, i32)>) -> Seq<(Seq<char>, i32)> {
    t.map_values(|e: (String, i32)| (e.0@, e.1))
}

/// The number of the system call `name` in the platform's table (see
/// [`table_lookup`]).
pub fn syscall_number(table: &Vec<(String, i32)>, name: &str) -> (r: Option<i32>)
    ensures
        r == table_lookup(table_view(table@), name@),
{
    let ghost tv = table_view(table@);
    let n = to_chars(name);
    assert(tv.skip(0) =~= tv);
    for i in 0..table.len()
        invariant
            tv == table_view(table@),
            n@ == name@,
            table_lookup(tv, name@) == table_lookup(tv.skip(i as int), name@),
    {
        assert(tv.skip(i as int).drop_first() =~= tv.skip(i + 1));
        assert(tv.skip(i as int)[0] == tv[i as int]);
        if chars_eq(&to_chars(table[i].0.as_str()), &n) {
            return Some(table[i].1);
        }
    }
    assert(tv.skip(table.len() as int) =~= Seq::<(Seq<char>, i32)>::empty());
    None
}

/// The numbers of the named system calls that the table knows, in order.
pub open spec fn known_numbers(table: Seq<(Seq<char>, i32)>, names: Seq<Seq<char>>) -> Seq<usize>
    decreases names.len(),
{
    if names.len() == 0 {
        Seq::empty()
    } else {
        let prev = known_numbers(table, names.drop_last());
        match table_lookup(table, names.last()) {
            Some(nr) => prev.push(nr as usize),
            None => prev,
        }
    }
}

/// The names the table does not know, in order.
pub open spec fn unknown_names(table: Seq<(Seq<char>, i32)>, names: Seq<Seq<char>>) -> Seq<Seq<char>>
    decreases names.len(),
{
    if names.len() == 0 {
        Seq::empty()
    } else {
        let prev = unknown_names(table, names.drop_last());
        match table_lookup(table, names.last()) {
            Some(_) => prev,
            None => prev.push(names.last()),
        }
    }
}

/// The table gives the name `n` the number `y`.
pub open spec fn known_as(table: Seq<(Seq<char>, i32)>, n: Seq<char>, y: usize) -> bool {
    match table_lookup(table, n) {
        Some(nr) => nr as usize == y,
        None => false,
    }
}

/// The numbers known for a list of names are those of its known names.
proof fn lemma_known_numbers(table: Seq<(Seq<char>, i32)>, names: Seq<Seq<char>>, y: usize)
    ensures
        known_numbers(table, names).contains(y) <==> exists|i: int|
            0 <= i < names.len() && known_as(table, #[trigger] names[i], y),
    decreases names.len(),
{
    if names.len() > 0 {
        let init = names.drop_last();
        lemma_known_numbers(table, init, y);
        let prev = known_numbers(table, init);
        if exists|i: int| 0 <= i < names.len() && known_as(table, #[trigger] names[i], y) {
            let i = choose|i: int| 0 <= i < names.len() && known_as(table, #[trigger] names[i], y);
            if i < names.len() - 1 {
                assert(init[i] == names[i]);
                let k = choose|k: int| 0 <= k < prev.len() && prev[k] == y;
                match table_lookup(table, names.last()) {
                    Some(nr) => assert(prev.push(nr as usize)[k] == y),
                    None => {},
                }
            } else {
                let nr = table_lookup(table, names.last())->0;
                assert(prev.push(nr as usize)[prev.len() as int] == y);
            }
        }
        if known_numbers(table, names).contains(y) {
            let k = choose|k: int|
                0 <= k < known_numbers(table, names).len() && known_numbers(table, names)[k] == y;
            match table_lookup(table, names.last()) {
                Some(nr) => {
                    if k < prev.len() {
                        assert(prev.push(nr as usize)[k] == prev[k]);
                        assert(prev.contains(y));
                        let i = choose|i: int| 0 <= i < init.len() && known_as(table, #[trigger] init[i], y);
                        assert(names[i] == init[i]);
                    } else {
                        assert(known_as(table, names[names.len() - 1], y));
                    }
                },
                None => {
                    assert(prev.contains(y));
                    let i = choose|i: int| 0 <= i < init.len() && known_as(table, #[trigger] init[i], y);
                    assert(names[i] == init[i]);
                },
            }
        }
    }
}

/// Two strictly increasing lists with the same elements are equal.
proof fn lemma_sorted_unique(a: Seq<usize>, b: Seq<usize>)
    requires
        strictly_sorted(a),
        strictly_sorted(b),
        forall|y: usize| a.contains(y) <==> b.contains(y),
    ensures
        a == b,
    decreases a.len(),
{
    if a.len() == 0 {
        if b.len() > 0 {
            assert(b.contains(b[0]));
        }
        assert(a =~= b);
    } else {
        assert(a.contains(a[0]));
        assert(b.len() > 0);
        assert(b.contains(b[0]));
        let k = choose|k: int| 0 <= k < b.len() && b[k] == a[0];
        let l = choose|l: int| 0 <= l < a.len() && a[l] == b[0];
        if k > 0 {
            assert(b[0] < b[k]);
            if l > 0 {
                assert(a[0] < a[l]);
            }
        }
        assert(a[0] == b[0]);
        let ta = a.drop_first();
        let tb = b.drop_first();
        assert forall|y: usize| ta.contains(y) <==> tb.contains(y) by {
            if ta.contains(y) {
                let i = choose|i: int| 0 <= i < ta.len() && ta[i] == y;
                assert(a[i + 1] == y && a[0] < a[i + 1]);
                assert(a.contains(y));
                let j = choose|j: int| 0 <= j < b.len() && b[j] == y;
                assert(j != 0);
                assert(tb[j - 1] == y);
            }
            if tb.contains(y) {
                let i = choose|i: int| 0 <= i < tb.len() && tb[i] == y;
                assert(b[i + 1] == y && b[0] < b[i + 1]);
                assert(b.contains(y));
                let j = choose|j: int| 0 <= j < a.len() && a[j] == y;
                assert(j != 0);
                assert(ta[j - 1] == y);
            }
        }
        lemma_sorted_unique(ta, tb);
        assert(a =~= seq![a[0]] + ta);
        assert(b =~= seq![b[0]] + tb);
    }
}

/// Law: the allow-list depends only on the base numbers and on which
/// configured names the table knows. Two allow-lists (strictly increasing,
/// holding the base numbers and the known numbers of their names, as
/// [`allowed_syscall_numbers`] builds them) are equal when their name lists
/// hold the same known names, whatever their order, repeats and unknown
/// names.
pub proof fn allow_list_ignores_order_repeats_and_unknown_names(
    base: Seq<usize>,
    table: Seq<(Seq<char>, i32)>,
    names1: Seq<Seq<char>>,
    names2: Seq<Seq<char>>,
    r1: Seq<usize>,
    r2: Seq<usize>,
)
    requires
        forall|n: Seq<char>|
            (names1.contains(n) && table_lookup(table, n) is Some) <==> (names2.contains(n)
                && table_lookup(table, n) is Some),
        strictly_sorted(r1),
        strictly_sorted(r2),
        forall|y: usize|
            r1.contains(y) <==> (base.contains(y) || known_numbers(table, names1).contains(y)),
        forall|y: usize|
            r2.contains(y) <==> (base.contains(y) || known_numbers(table, names2).contains(y)),
    ensures
        r1 == r2,
{
    assert forall|y: usize| r1.contains(y) <==> r2.contains(y) by {
        lemma_known_numbers(table, names1, y);
        lemma_known_numbers(table, names2, y);
        if exists|i: int| 0 <= i < names1.len() && known_as(table, #[trigger] names1[i], y) {
            let i = choose|i: int| 0 <= i < names1.len() && known_as(table, #[trigger] names1[i], y);
            assert(names1.contains(names1[i]));
            assert(names2.contains(names1[i]));
            let j = choose|j: int| 0 <= j < names2.len() && names2[j] == names1[i];
            assert(known_as(table, names2[j], y));
        }
        if exists|i: int| 0 <= i < names2.len() && known_as(table, #[trigger] names2[i], y) {
            let i = choose|i: int| 0 <= i < names2.len() && known_as(table, #[trigger] names2[i], y);
            assert(names2.contains(names2[i]));
            assert(names1.contains(names2[i]));
            let j = choose|j: int| 0 <= j < names1.len() && names1[j] == names2[i];
            assert(known_as(table, names1[j], y));
        }
    }
    lemma_sorted_unique(r1, r2);
}

/// Each element is smaller than the next.
pub open spec fn strictly_sorted(s: Seq<usize>) -> bool {
    forall|i: int, j: int| 0 <= i < j < s.len() ==> s[i] < s[j]
}

/// Adds `x` to a strictly increasing list, keeping it so.
fn insert_sorted(v: &mut Vec<usize>, x: usize)
    requires
        strictly_sorted(old(v)@),
    ensures
        strictly_sorted(final(v)@),
        forall|y: usize| final(v)@.contains(y) <==> (old(v)@.contains(y) || y == x),
{
    let mut i: usize = 0;
    while i < v.len() && v[i] < x
        invariant
            i <= v.len(),
            forall|j: int| 0 <= j < i ==> v@[j] < x,
        decreases v.len() - i,
    {
        i = i + 1;
    }
    if i < v.len() && v[i] == x {
        return;
    }
    let ghost before = v@;
    v.insert(i, x);
    assert forall|a: int, b: int| 0 <= a < b < v@.len() implies v@[a] < v@[b] by {
        if b < i {
        } else if a < i && b == i {
        } else if a < i {
            assert(v@[b] == before[b - 1]);
            assert(before[a] < before[b - 1] || a == b - 1);
        } else if a == i {
            assert(v@[b] == before[b - 1]);
            assert(before[i as int] >= x);
            if b - 1 > i {
                assert(before[i as int] < before[b - 1]);
            }
        } else {
            assert(v@[a] == before[a - 1] && v@[b] == before[b - 1]);
        }
    }
    assert forall|y: usize| v@.contains(y) <==> (before.contains(y) || y == x) by {
        if v@.contains(y) {
            let k = choose|k: int| 0 <= k < v@.len() && v@[k] == y;
            if k < i {
                assert(before[k] == y);
            } else if k > i {
                assert(before[k - 1] == y);
            }
        }
        if before.contains(y) {
            let k = choose|k: int| 0 <= k < before.len() && before[k] == y;
            if k < i {
                assert(v@[k] == y);
            } else {
                assert(v@[k + 1] == y);
            }
        }
        if y == x {
            assert(v@[i as int] == x);
        }
    }
}

/// The allow-list: the base numbers and the numbers of the configured names
/// that the table knows, in increasing order without repeats; and the
/// configured names the table does not know.
pub fn allowed_syscall_numbers(
    base: &Vec<usize>,
    table: &Vec<(String, i32)>,
    names: &Vec<String>,
) -> (r: (Vec<usize>, Vec<String>))
    ensures
        strictly_sorted(r.0@),
        forall|y: usize|
            r.0@.contains(y) <==> (base@.contains(y) || known_numbers(
                table_view(table@),
                strings_view(names@),
            ).contains(y)),
        strings_view(r.1@) == unknown_names(table_view(table@), strings_view(names@)),
{
    let ghost tv = table_view(table@);
    let ghost nv = strings_view(names@);
    let mut extra: Vec<usize> = Vec::new();
    let mut unknown: Vec<String> = Vec::new();
    for i in 0..names.len()
        invariant
            tv == table_view(table@),
            nv == strings_view(names@),
            extra@ == known_numbers(tv, nv.take(i as int)),
            strings_view(unknown@) == unknown_names(tv, nv.take(i as int)),
    {
        assert(nv.take(i + 1).drop_last() =~= nv.take(i as int));
        assert(nv.take(i + 1).last() == names@[i as int]@);
        let ghost before = strings_view(unknown@);
        match syscall_number(table, names[i].as_str()) {
            Some(nr) => {
                extra.push(nr as usize);
            },
            None => {
                unknown.push(names[i].clone());
                assert(strings_view(unknown@) =~= before.push(names@[i as int]@));
            },
        }
    }
    assert(nv.take(names.len() as int) =~= nv);
    let mut allowed: Vec<usize> = Vec::new();
    for i in 0..base.len()
        invariant
            strictly_sorted(allowed@),
            forall|y: usize| allowed@.contains(y) <==> base@.take(i as int).contains(y),
    {
        insert_sorted(&mut allowed, base[i]);
        assert(base@.take(i + 1) =~= base@.take(i as int).push(base@[i as int]));
    }
    assert(base@.take(base.len() as int) =~= base@);
    let ghost base_set = allowed@;
    for i in 0..extra.len()
        invariant
            strictly_sorted(allowed@),
            forall|y: usize|
                allowed@.contains(y) <==> (base@.contains(y) || extra@.take(i as int).contains(y)),
    {
        insert_sorted(&mut allowed, extra[i]);
        assert(extra@.take(i + 1) =~= extra@.take(i as int).push(extra@[i as int]));
    }
    assert(extra@.take(extra.len() as int) =~= extra@);
    (allowed, unknown)
}

/// A statement: an instruction that does not jump.
pub open spec fn stmt(code: u16, k: u32) -> SockFilter {
    SockFilter { code, jt: 0, jf: 0, k }
}

/// A conditional jump.
pub open spec fn jump(code: u16, k: u32, jt: u8, jf: u8) -> SockFilter {
    SockFilter { code, jt, jf, k }
}

/// For each allowed number, a test against it followed by an `allow` return.
pub open spec fn checks_spec(allowed: Seq<usize>, ret_allow: u32) -> Seq<SockFilter>
    decreases allowed.len(),
{
    if allowed.len() == 0 {
        Seq::empty()
    } else {
        checks_spec(allowed.drop_last(), ret_allow) + seq![
            jump(BPF_JMP | BPF_JEQ | BPF_K, allowed.last() as u32, 0, 1),
            stmt(BPF_RET | BPF_K, ret_allow),
        ]
    }
}

/// The filter program: load the system call number, test it against each
/// allowed number (returning `allow` on a match), and finally return `deny`.
pub open spec fn program_spec(allowed: Seq<usize>, ret_allow: u32, ret_deny: u32) -> Seq<SockFilter> {
    seq![stmt(BPF_LD | BPF_W | BPF_ABS, 0)] + checks_spec(allowed, ret_allow) + seq![
        stmt(BPF_RET | BPF_K, ret_deny),
    ]
}

/// The verdict `allow` of the filter (`SECCOMP_RET_ALLOW`).
pub open spec fn ret_allow_value() -> u32 {
    0x7fff_0000
}

/// The verdict `kill the process` of the filter (`SECCOMP_RET_KILL_PROCESS`).
pub open spec fn ret_kill_value() -> u32 {
    0x8000_0000
}

/// The filter program for an allow-list (see [`program_spec`]): calls off the
/// list kill the process.
pub fn seccomp_program(allowed: &Vec<usize>) -> (r: Vec<SockFilter>)
    ensures
        r@ == program_spec(allowed@, ret_allow_value(), ret_kill_value()),
{
    let ret_allow = seccomp_ret_allow();
    let ret_deny = seccomp_ret_kill_process();
    let mut filter: Vec<SockFilter> = Vec::new();
    filter.push(SockFilter { code: BPF_LD | BPF_W | BPF_ABS, jt: 0, jf: 0, k: 0 });
    for i in 0..allowed.len()
        invariant
            ret_allow == ret_allow_value(),
            filter@ == seq![stmt(BPF_LD | BPF_W | BPF_ABS, 0)] + checks_spec(
                allowed@.take(i as int),
                ret_allow,
            ),
    {
        let nr = allowed[i];
        assert(allowed@.take(i + 1).drop_last() =~= allowed@.take(i as int));
        filter.push(SockFilter { code: BPF_JMP | BPF_JEQ | BPF_K, jt: 0, jf: 1, k: nr as u32 });
        filter.push(SockFilter { code: BPF_RET | BPF_K, jt: 0, jf: 0, k: ret_allow });
        assert(filter@ =~= seq![stmt(BPF_LD | BPF_W | BPF_ABS, 0)] + checks_spec(
            allowed@.take(i + 1),
            ret_allow,
        ));
    }
    assert(allowed@.take(allowed.len() as int) =~= allowed@);
    filter.push(SockFilter { code: BPF_RET | BPF_K, jt: 0, jf: 0, k: ret_deny });
    filter
}

/// The value the filter returns for a system call numbered `nr`, running
/// from instruction `pc` with accumulator `acc` (for the instructions this
/// filter uses: a load of the call number, equality jumps and returns).
pub open spec fn bpf_eval(prog: Seq<SockFilter>, pc: int, acc: u32, nr: u32) -> Option<u32>
    decreases (if 0 <= pc < prog.len() {
        prog.len() - pc
    } else {
        0
    }),
{
    if pc < 0 || pc >= prog.len() {
        None
    } else {
        let ins = prog[pc];
        if ins.code == BPF_RET | BPF_K {
            Some(ins.k)
        } else if ins.code == BPF_JMP | BPF_JEQ | BPF_K {
            bpf_eval(prog, pc + 1 + (if acc == ins.k { ins.jt } else { ins.jf }), acc, nr)
        } else if ins.code == BPF_LD | BPF_W | BPF_ABS && ins.k == 0 {
            bpf_eval(prog, pc + 1, nr, nr)
        } else {
            None
        }
    }
}

/// The call number `nr` is tested by one of the checks from the `j`-th on.
pub open spec fn listed_from(allowed: Seq<usize>, j: int, nr: u32) -> bool {
    exists|i: int| j <= i < allowed.len() && #[trigger] (allowed[i] as u32) == nr
}

/// The checks of a list are the checks of its first elements followed by
/// those of the rest.
proof fn lemma_checks_index(allowed: Seq<usize>, ret_allow: u32, j: int)
    requires
        0 <= j < allowed.len(),
    ensures
        checks_spec(allowed, ret_allow).len() == 2 * allowed.len(),
        checks_spec(allowed, ret_allow)[2 * j] == jump(
            BPF_JMP | BPF_JEQ | BPF_K,
            allowed[j] as u32,
            0,
            1,
        ),
        checks_spec(allowed, ret_allow)[2 * j + 1] == stmt(BPF_RET | BPF_K, ret_allow),
    decreases allowed.len(),
{
    if j < allowed.len() - 1 {
        lemma_checks_index(allowed.drop_last(), ret_allow, j);
    } else {
        lemma_checks_len(allowed.drop_last(), ret_allow);
    }
}

proof fn lemma_checks_len(allowed: Seq<usize>, ret_allow: u32)
    ensures
        checks_spec(allowed, ret_allow).len() == 2 * allowed.len(),
    decreases allowed.len(),
{
    if allowed.len() > 0 {
        lemma_checks_len(allowed.drop_last(), ret_allow);
    }
}

/// From the `j`-th check on, the program allows exactly the numbers that a
/// later check tests, and denies the others.
proof fn lemma_eval_from_check(allowed: Seq<usize>, ret_allow: u32, ret_deny: u32, j: int, nr: u32)
    requires
        0 <= j <= allowed.len(),
    ensures
        bpf_eval(program_spec(allowed, ret_allow, ret_deny), 1 + 2 * j, nr, nr) == if listed_from(
            allowed,
            j,
            nr,
        ) {
            Some(ret_allow)
        } else {
            Some(ret_deny)
        },
    decreases allowed.len() - j,
{
    assert((BPF_JMP | BPF_JEQ | BPF_K) == 0x15u16) by (bit_vector);
    assert((BPF_RET | BPF_K) == 0x06u16) by (bit_vector);
    assert((BPF_LD | BPF_W | BPF_ABS) == 0x20u16) by (bit_vector);
    let prog = program_spec(allowed, ret_allow, ret_deny);
    lemma_checks_len(allowed, ret_allow);
    assert(prog.len() == 2 * allowed.len() + 2);
    if j == allowed.len() {
        assert(prog[1 + 2 * j] == stmt(BPF_RET | BPF_K, ret_deny));
        assert(!listed_from(allowed, j, nr));
    } else {
        lemma_checks_index(allowed, ret_allow, j);
        assert(prog[1 + 2 * j] == checks_spec(allowed, ret_allow)[2 * j]);
        assert(prog[2 + 2 * j] == checks_spec(allowed, ret_allow)[2 * j + 1]);
        lemma_eval_from_check(allowed, ret_allow, ret_deny, j + 1, nr);
        assert(bpf_eval(prog, 2 + 2 * j, nr, nr) == Some(ret_allow));
        if allowed[j] as u32 == nr {
            assert(listed_from(allowed, j, nr));
        } else {
            assert(listed_from(allowed, j, nr) == listed_from(allowed, j + 1, nr)) by {
                if listed_from(allowed, j, nr) {
                    let i = choose|i: int| j <= i < allowed.len() && #[trigger] (allowed[i] as u32) == nr;
                    assert(i != j);
                }
            }
        }
    }
}

/// Law: the filter is a strict allow-list. For every system call number it
/// returns `allow` exactly when some entry of the list tests that number, and
/// kills the process otherwise.
pub proof fn seccomp_filter_allows_exactly_listed(allowed: Seq<usize>, nr: u32)
    ensures
        bpf_eval(program_spec(allowed, ret_allow_value(), ret_kill_value()), 0, 0, nr) == if exists|
            i: int,
        |
            0 <= i < allowed.len() && #[trigger] (allowed[i] as u32) == nr {
            Some(ret_allow_value())
        } else {
            Some(ret_kill_value())
        },
{
    assert((BPF_LD | BPF_W | BPF_ABS) == 0x20u16) by (bit_vector);
    assert((BPF_RET | BPF_K) == 0x06u16) by (bit_vector);
    assert((BPF_JMP | BPF_JEQ | BPF_K) == 0x15u16) by (bit_vector);
    let prog = program_spec(allowed, ret_allow_value(), ret_kill_value());
    lemma_eval_from_check(allowed, ret_allow_value(), ret_kill_value(), 0, nr);
    assert(prog[0] == stmt(BPF_LD | BPF_W | BPF_ABS, 0));
    assert(bpf_eval(prog, 0, 0, nr) == bpf_eval(prog, 1, nr, nr));
}

} // verus!
