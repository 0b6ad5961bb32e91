use morning::ir::{
    byte_width_to_opsize, Add, BlockRef, Cmp, Displaced, Func, Girthy, Jg, Jmp, Label, LabelGen,
    LabelRef, LocalRef, Location, Mov, Op, Operand, Reg, Sub, ToLocation, Type, Xor,
};

fn rax() -> Location {
    Location::Register(Reg::RAX)
}

#[test]
fn a_new_function_has_one_empty_private_entry_block() {
    let f = Func::new("main");
    assert_eq!(f.name, "main");
    assert!(!f.public);
    assert_eq!(f.entry, BlockRef(0));
    assert_eq!(f.blocks.len(), 1);
    assert_eq!(f.blocks[0].own_ref, BlockRef(0));
    assert!(f.blocks[0].locals.is_empty());
    assert!(f.blocks[0].labels.is_empty());
    assert!(f.blocks[0].ops.is_empty());
}

#[test]
fn push_block_appends_an_unattached_empty_block() {
    let mut f = Func::new("f");
    let b1 = f.push_block();
    let b2 = f.push_block();
    assert_eq!(b1, BlockRef(1));
    assert_eq!(b2, BlockRef(2));
    assert_eq!(f.blocks.len(), 3);
    assert_eq!(f.blocks[2].own_ref, BlockRef(2));
    assert!(f.blocks[0].ops.is_empty());
    assert!(f.blocks[1].ops.is_empty());
    assert!(f.blocks[2].ops.is_empty());
}

#[test]
fn locals_get_handles_by_position() {
    let mut f = Func::new("f");
    let entry = f.entry;
    let x = entry.borrow_mut(&mut f).push_local("x", Type::I64);
    let y = entry.borrow_mut(&mut f).push_local("y", Type::I64);
    assert_eq!(x, LocalRef(BlockRef(0), 0));
    assert_eq!(y, LocalRef(BlockRef(0), 1));
    assert_eq!(x.borrow(&f).name, "x");
    assert_eq!(y.borrow(&f).name, "y");
    assert_eq!(y.borrow(&f).typ, Type::I64);
    let b = f.push_block();
    let z = b.borrow_mut(&mut f).push_local("z", Type::I64);
    assert_eq!(z, LocalRef(BlockRef(1), 0));
}

#[test]
fn girth_is_the_size_of_the_locals() {
    let mut f = Func::new("f");
    let entry = f.entry;
    assert_eq!(entry.borrow(&f).locals_girth(&f), 0);
    entry.borrow_mut(&mut f).push_local("a", Type::I64);
    assert_eq!(entry.borrow(&f).locals_girth(&f), 8);
    entry.borrow_mut(&mut f).push_local("b", Type::I64);
    entry.borrow_mut(&mut f).push_local("c", Type::I64);
    assert_eq!(entry.borrow(&f).locals_girth(&f), 24);
}

#[test]
fn labels_are_numbered_in_order() {
    let mut labels = LabelGen::new();
    assert_eq!(labels.peek(), 0);
    let a = Label::new(&mut labels);
    let b = Label::new(&mut labels);
    let c = Label::new(&mut labels);
    assert_eq!(a.name, "label_0");
    assert_eq!(b.name, "label_1");
    assert_eq!(c.name, "label_2");
    assert_eq!(labels.peek(), 3);
    assert_eq!(labels.remaining(), u64::MAX - 3);
}

#[test]
fn labels_of_one_run_are_pairwise_distinct() {
    let mut labels = LabelGen::starting_at(95);
    let mut names: Vec<String> = Vec::new();
    for _ in 0..20 {
        names.push(Label::new(&mut labels).name);
    }
    for i in 0..names.len() {
        for j in 0..names.len() {
            if i != j {
                assert_ne!(names[i], names[j]);
            }
        }
    }
    assert_eq!(names[0], "label_95");
    assert_eq!(names[5], "label_100");
}

#[test]
fn the_last_label_can_be_minted() {
    let mut labels = LabelGen::starting_at(u64::MAX - 1);
    assert_eq!(labels.remaining(), 1);
    let l = Label::new(&mut labels);
    assert_eq!(l.name, "label_18446744073709551614");
    assert_eq!(labels.remaining(), 0);
}

#[test]
fn labels_are_shared_between_blocks_and_functions() {
    let mut labels = LabelGen::new();
    let mut f = Func::new("f");
    let mut g = Func::new("g");
    let b = f.push_block();
    let l0 = f.entry.borrow_mut(&mut f).new_label(&mut labels);
    let l1 = b.borrow_mut(&mut f).new_label(&mut labels);
    let l2 = g.entry.borrow_mut(&mut g).new_label(&mut labels);
    let l3 = f.entry.borrow_mut(&mut f).new_label(&mut labels);
    assert_eq!(l0, LabelRef(BlockRef(0), 0));
    assert_eq!(l1, LabelRef(BlockRef(1), 0));
    assert_eq!(l2, LabelRef(BlockRef(0), 0));
    assert_eq!(l3, LabelRef(BlockRef(0), 1));
    assert_eq!(l0.borrow(&f).name, "label_0");
    assert_eq!(l1.borrow(&f).name, "label_1");
    assert_eq!(l2.borrow(&g).name, "label_2");
    assert_eq!(l3.borrow(&f).name, "label_3");
}

#[test]
fn constructors_convert_their_operands() {
    let x = LocalRef(BlockRef(0), 0);
    match Op::mov(x, 1i64) {
        Op::Mov(m) => {
            assert_eq!(m, Mov { dst: Location::Local(x), src: Location::Imm64(1) });
        }
        other => panic!("{:?}", other),
    }
    match Op::add(Reg::RAX, Reg::RBX.displaced(-8)) {
        Op::Add(a) => {
            assert_eq!(
                a,
                Add {
                    lhs: rax(),
                    rhs: Location::Displaced(Displaced { register: Reg::RBX, displacement: -8 }),
                }
            );
        }
        other => panic!("{:?}", other),
    }
    assert!(matches!(Op::xor(x, x), Op::Xor(Xor { lhs: Location::Local(_), rhs: Location::Local(_) })));
    assert!(matches!(Op::sub(Reg::RSP, 16i64), Op::Sub(Sub { lhs: Location::Register(Reg::RSP), rhs: Location::Imm64(16) })));
    assert!(matches!(Op::cmp(Reg::RAX, 10i64), Op::Cmp(Cmp { lhs: Location::Register(Reg::RAX), rhs: Location::Imm64(10) })));
    let l = LabelRef(BlockRef(0), 3);
    assert!(matches!(Op::jg(l), Op::Jg(Jg { dst }) if dst == l));
    assert!(matches!(Op::jmp(l), Op::Jmp(Jmp { dst }) if dst == l));
    assert!(matches!(Op::label(l), Op::Label(d) if d == l));
    assert!(matches!(Op::block(BlockRef(2)), Op::Block(BlockRef(2))));
    assert!(matches!(Op::ret_none(), Op::Ret(None)));
    assert!(matches!(Op::ret_some(Reg::RAX), Op::Ret(Some(Location::Register(Reg::RAX)))));
    match Op::comment("hello") {
        Op::Comment(Some(s)) => assert_eq!(s, "hello"),
        other => panic!("{:?}", other),
    }
}

#[test]
fn conversions_into_locations() {
    let x = LocalRef(BlockRef(1), 2);
    assert_eq!(Location::from(x), Location::Local(x));
    assert_eq!(Location::from(Reg::R9), Location::Register(Reg::R9));
    assert_eq!(Location::from(-3i64), Location::Imm64(-3));
    assert_eq!(x.to_location(), Location::Local(x));
    assert_eq!(Reg::R9.to_location(), Location::Register(Reg::R9));
    assert_eq!((-3i64).to_location(), Location::Imm64(-3));
    assert_eq!(rax().to_location(), rax());
    let l: Location = Reg::RCX.into();
    assert_eq!(l, Location::Register(Reg::RCX));
}

#[test]
fn operands_stand_for_their_operation() {
    let x = Location::Local(LocalRef(BlockRef(0), 0));
    assert!(matches!(Xor { lhs: x, rhs: x }.op(), Op::Xor(_)));
    assert!(matches!(Mov { dst: x, src: x }.op(), Op::Mov(_)));
    assert!(matches!(Add { lhs: x, rhs: x }.op(), Op::Add(_)));
    assert!(matches!(Sub { lhs: x, rhs: x }.op(), Op::Sub(_)));
    assert!(matches!(Cmp { lhs: x, rhs: x }.op(), Op::Cmp(_)));
    assert!(matches!(Jg { dst: LabelRef(BlockRef(0), 0) }.op(), Op::Jg(_)));
    assert!(matches!(Jmp { dst: LabelRef(BlockRef(0), 0) }.op(), Op::Jmp(_)));
    assert!(matches!(LabelRef(BlockRef(0), 0).op(), Op::Label(_)));
    assert!(matches!(BlockRef(4).op(), Op::Block(BlockRef(4))));
    assert!(matches!(Op::ret_none().op(), Op::Ret(None)));
}

#[test]
fn memory_operands_are_locals_and_displaced_registers() {
    assert!(Location::Local(LocalRef(BlockRef(0), 0)).is_displaced());
    assert!(Reg::RBP.displaced(8).is_displaced());
    assert!(!rax().is_displaced());
    assert!(!Location::Imm64(5).is_displaced());
}

fn ops_of(f: &Func) -> Vec<String> {
    f.blocks[0].ops.iter().map(|o| format!("{:?}", o)).collect()
}

#[test]
fn add_of_two_memory_operands_becomes_load_op_store() {
    let mut f = Func::new("f");
    let entry = f.entry;
    let x = entry.borrow_mut(&mut f).push_local("x", Type::I64);
    let y = entry.borrow_mut(&mut f).push_local("y", Type::I64);
    entry.borrow_mut(&mut f).push_op(Op::add(y, x));
    let ops = &f.blocks[0].ops;
    assert_eq!(ops.len(), 3);
    assert!(matches!(&ops[0], Op::Mov(m) if m.dst == rax() && m.src == Location::Local(y)));
    assert!(matches!(&ops[1], Op::Add(a) if a.lhs == rax() && a.rhs == Location::Local(x)));
    assert!(matches!(&ops[2], Op::Mov(m) if m.dst == Location::Local(y) && m.src == rax()));
}

#[test]
fn xor_of_two_memory_operands_becomes_load_op_store() {
    let mut f = Func::new("f");
    let entry = f.entry;
    let x = entry.borrow_mut(&mut f).push_local("x", Type::I64);
    let d = Reg::RBX.displaced(24);
    entry.borrow_mut(&mut f).push_op(Op::xor(d, x));
    let ops = &f.blocks[0].ops;
    assert_eq!(ops.len(), 3);
    assert!(matches!(&ops[0], Op::Mov(m) if m.dst == rax() && m.src == d));
    assert!(matches!(&ops[1], Op::Xor(o) if o.lhs == rax() && o.rhs == Location::Local(x)));
    assert!(matches!(&ops[2], Op::Mov(m) if m.dst == d && m.src == rax()));
}

#[test]
fn sub_and_compare_follow_the_same_rule() {
    let mut f = Func::new("f");
    let entry = f.entry;
    let x = entry.borrow_mut(&mut f).push_local("x", Type::I64);
    let y = entry.borrow_mut(&mut f).push_local("y", Type::I64);
    entry.borrow_mut(&mut f).push_op(Op::sub(x, y));
    entry.borrow_mut(&mut f).push_op(Op::cmp(x, y));
    let ops = &f.blocks[0].ops;
    assert_eq!(ops.len(), 6);
    assert!(matches!(&ops[0], Op::Mov(m) if m.dst == rax() && m.src == Location::Local(x)));
    assert!(matches!(&ops[1], Op::Sub(o) if o.lhs == rax() && o.rhs == Location::Local(y)));
    assert!(matches!(&ops[2], Op::Mov(m) if m.dst == Location::Local(x) && m.src == rax()));
    assert!(matches!(&ops[3], Op::Mov(m) if m.dst == rax() && m.src == Location::Local(x)));
    assert!(matches!(&ops[4], Op::Cmp(o) if o.lhs == rax() && o.rhs == Location::Local(y)));
    assert!(matches!(&ops[5], Op::Mov(m) if m.dst == Location::Local(x) && m.src == rax()));
}

#[test]
fn no_stored_arithmetic_has_two_memory_operands() {
    let mut f = Func::new("f");
    let entry = f.entry;
    let x = entry.borrow_mut(&mut f).push_local("x", Type::I64);
    let y = entry.borrow_mut(&mut f).push_local("y", Type::I64);
    let d = Reg::RBP.displaced(-64);
    for (l, r) in [(Location::Local(x), Location::Local(y)), (d, Location::Local(x)), (Location::Local(y), d), (d, d)] {
        entry.borrow_mut(&mut f).push_op(Op::add(l, r));
        entry.borrow_mut(&mut f).push_op(Op::xor(l, r));
        entry.borrow_mut(&mut f).push_op(Op::sub(l, r));
        entry.borrow_mut(&mut f).push_op(Op::cmp(l, r));
    }
    assert_eq!(f.blocks[0].ops.len(), 4 * 4 * 3);
    for op in &f.blocks[0].ops {
        let pair = match op {
            Op::Add(o) => Some((o.lhs, o.rhs)),
            Op::Xor(o) => Some((o.lhs, o.rhs)),
            Op::Sub(o) => Some((o.lhs, o.rhs)),
            Op::Cmp(o) => Some((o.lhs, o.rhs)),
            _ => None,
        };
        if let Some((l, r)) = pair {
            assert!(!(l.is_displaced() && r.is_displaced()));
        }
    }
}

#[test]
fn operations_with_at_most_one_memory_operand_are_stored_as_they_are() {
    let mut f = Func::new("f");
    let entry = f.entry;
    let x = entry.borrow_mut(&mut f).push_local("x", Type::I64);
    let y = entry.borrow_mut(&mut f).push_local("y", Type::I64);
    entry.borrow_mut(&mut f).push_op(Op::add(Reg::RAX, x));
    entry.borrow_mut(&mut f).push_op(Op::add(x, 1i64));
    entry.borrow_mut(&mut f).push_op(Op::xor(Reg::RAX, Reg::RAX));
    entry.borrow_mut(&mut f).push_op(Op::mov(x, y));
    entry.borrow_mut(&mut f).push_op(Op::comment("note"));
    entry.borrow_mut(&mut f).push_op(Op::ret_none());
    let ops = ops_of(&f);
    assert_eq!(ops.len(), 6);
    assert!(matches!(&f.blocks[0].ops[0], Op::Add(a) if a.lhs == rax() && a.rhs == Location::Local(x)));
    assert!(matches!(&f.blocks[0].ops[1], Op::Add(a) if a.lhs == Location::Local(x) && a.rhs == Location::Imm64(1)));
    assert!(matches!(&f.blocks[0].ops[2], Op::Xor(_)));
    assert!(matches!(&f.blocks[0].ops[3], Op::Mov(m) if m.dst == Location::Local(x) && m.src == Location::Local(y)));
    assert!(matches!(&f.blocks[0].ops[4], Op::Comment(Some(_))));
    assert!(matches!(&f.blocks[0].ops[5], Op::Ret(None)));
}

#[test]
fn handles_and_operands_go_in_as_operations() {
    let mut labels = LabelGen::new();
    let mut f = Func::new("f");
    let entry = f.entry;
    let child = f.push_block();
    let l = entry.borrow_mut(&mut f).new_label(&mut labels);
    entry.borrow_mut(&mut f).push_op(l);
    entry.borrow_mut(&mut f).push_op(child);
    entry.borrow_mut(&mut f).push_op(Jmp { dst: l });
    assert!(matches!(&f.blocks[0].ops[0], Op::Label(d) if *d == l));
    assert!(matches!(&f.blocks[0].ops[1], Op::Block(b) if *b == child));
    assert!(matches!(&f.blocks[0].ops[2], Op::Jmp(j) if j.dst == l));
}

#[test]
fn widths() {
    let mut f = Func::new("f");
    let entry = f.entry;
    let x = entry.borrow_mut(&mut f).push_local("x", Type::I64);
    assert_eq!(Type::I64.byte_width(&f), 8);
    assert_eq!(Reg::RAX.byte_width(&f), 8);
    assert_eq!(Reg::R15.byte_width(&f), 8);
    assert_eq!(Location::Local(x).byte_width(&f), 8);
    assert_eq!(Location::Imm64(1).byte_width(&f), 8);
    assert_eq!(Reg::RBP.displaced(-8).byte_width(&f), 8);
    assert_eq!(rax().byte_width(&f), 8);
}

#[test]
fn size_keywords() {
    assert_eq!(byte_width_to_opsize(1), "byte");
    assert_eq!(byte_width_to_opsize(2), "word");
    assert_eq!(byte_width_to_opsize(4), "dword");
    assert_eq!(byte_width_to_opsize(8), "qword");
    assert_eq!(byte_width_to_opsize(3), "<invalid_width>");
    assert_eq!(byte_width_to_opsize(0), "<invalid_width>");
    assert_eq!(byte_width_to_opsize(-8), "<invalid_width>");
    assert_eq!(byte_width_to_opsize(16), "<invalid_width>");
}

#[test]
fn register_names_are_lower_case() {
    let all = [
        (Reg::RAX, "rax"), (Reg::RBX, "rbx"), (Reg::RCX, "rcx"), (Reg::RDX, "rdx"),
        (Reg::RSI, "rsi"), (Reg::RDI, "rdi"), (Reg::RBP, "rbp"), (Reg::RSP, "rsp"),
        (Reg::R8, "r8"), (Reg::R9, "r9"), (Reg::R10, "r10"), (Reg::R11, "r11"),
        (Reg::R12, "r12"), (Reg::R13, "r13"), (Reg::R14, "r14"), (Reg::R15, "r15"),
    ];
    for (r, name) in all {
        assert_eq!(r.nasm_name(), name);
        assert_eq!(format!("{:?}", r).to_lowercase(), name);
        let mut s = String::from(">");
        r.write_nasm_name(&mut s);
        assert_eq!(s, format!(">{}", name));
    }
}

#[test]
fn labels_and_locals_can_be_changed_in_place() {
    let mut labels = LabelGen::new();
    let mut f = Func::new("f");
    let entry = f.entry;
    let other = f.push_block();
    let x = entry.borrow_mut(&mut f).push_local("x", Type::I64);
    let y = other.borrow_mut(&mut f).push_local("y", Type::I64);
    let l = other.borrow_mut(&mut f).new_label(&mut labels);
    let m = other.borrow_mut(&mut f).new_label(&mut labels);
    y.borrow_mut(&mut f).name = String::from("renamed");
    m.borrow_mut(&mut f).name = String::from("exit");
    assert_eq!(x.borrow(&f).name, "x");
    assert_eq!(y.borrow(&f).name, "renamed");
    assert_eq!(l.borrow(&f).name, "label_0");
    assert_eq!(m.borrow(&f).name, "exit");
    assert_eq!(f.blocks.len(), 2);
    assert_eq!(f.blocks[1].labels.len(), 2);
    assert_eq!(f.blocks[1].locals.len(), 1);
    assert_eq!(f.blocks[1].own_ref, BlockRef(1));
}
