use morning::ir::emit::{
    comment, emit_all, emit_block, emit_func, emit_location, emit_op, emit_opsize, emit_simple_op,
    instruction, Stack,
};
use morning::ir::validate::{checked_girth, is_emittable};
use morning::ir::{BlockRef, Func, LabelGen, LabelRef, LocalRef, Location, Op, Reg, Type};

/// The text of the given lines, each closed by a line feed. A line that
/// starts with a blank is an instruction or a comment and gets the indent.
fn listing(lines: &[&str]) -> String {
    let mut s = String::new();
    for l in lines {
        if let Some(rest) = l.strip_prefix(' ') {
            s.push_str("            ");
            s.push_str(rest);
        } else {
            s.push_str(l);
        }
        s.push('\n');
    }
    s
}

#[test]
fn emits_a_private_function_with_one_local() {
    let mut f = Func::new("main");
    let entry = f.entry;
    let x = entry.borrow_mut(&mut f).push_local("x", Type::I64);
    entry.borrow_mut(&mut f).push_op(Op::mov(x, 1i64));
    entry.borrow_mut(&mut f).push_op(Op::ret_some(x));
    assert!(is_emittable(&f));
    let text = emit_all(&vec![f]);
    let expected = listing(&[
        " section .text",
        "main:",
        " mov       rbp, rsp",
        " ; block prologue start",
        " sub       rsp, 8",
        " mov       qword [rbp-8], 1",
        " mov       rax, [rbp-8]",
        " ; exiting 1 block",
        " add       rsp, 8",
        " ret       0",
        " ; exiting 1 block",
        " add       rsp, 8",
        " ret       0",
        " ; exiting 1 block",
        " add       rsp, 8",
    ]);
    assert_eq!(text, expected);
}

#[test]
fn an_empty_function_still_returns() {
    let f = Func::new("nothing");
    assert!(is_emittable(&f));
    let mut out = String::from("nothing:\n");
    emit_func(&mut out, &f);
    let expected = listing(&[
        "nothing:",
        " mov       rbp, rsp",
        " ; block prologue start",
        " sub       rsp, 0",
        " ; exiting 1 block",
        " add       rsp, 0",
        " ret       0",
        " ; exiting 1 block",
        " add       rsp, 0",
    ]);
    assert_eq!(out, expected);
}

#[test]
fn the_hand_written_counting_loop() {
    let mut labels = LabelGen::new();
    let mut main = Func::new("main");
    let e = main.entry;
    let x = e.borrow_mut(&mut main).push_local("x", Type::I64);
    e.borrow_mut(&mut main).push_op(Op::mov(x, 1i64));
    let y = e.borrow_mut(&mut main).push_local("y", Type::I64);
    e.borrow_mut(&mut main).push_op(Op::mov(y, 0i64));
    let loopstart = e.borrow_mut(&mut main).new_label(&mut labels);
    let loopend = e.borrow_mut(&mut main).new_label(&mut labels);
    e.borrow_mut(&mut main).push_op(loopstart);
    e.borrow_mut(&mut main).push_op(Op::add(y, x));
    e.borrow_mut(&mut main).push_op(Op::mov(Reg::RAX, x));
    e.borrow_mut(&mut main).push_op(Op::add(Reg::RAX, 1i64));
    e.borrow_mut(&mut main).push_op(Op::mov(x, Reg::RAX));
    e.borrow_mut(&mut main).push_op(Op::mov(Reg::RAX, x));
    e.borrow_mut(&mut main).push_op(Op::cmp(Reg::RAX, 10i64));
    e.borrow_mut(&mut main).push_op(Op::jg(loopend));
    e.borrow_mut(&mut main).push_op(Op::jmp(loopstart));
    e.borrow_mut(&mut main).push_op(loopend);
    e.borrow_mut(&mut main).push_op(Op::mov(Reg::RAX, y));
    e.borrow_mut(&mut main).push_op(Op::ret_some(Reg::RAX));
    main.public = true;
    assert!(is_emittable(&main));
    let text = emit_all(&vec![main]);
    let expected = listing(&[
        " global main",
        " section .text",
        "main:",
        " mov       rbp, rsp",
        " ; block prologue start",
        " sub       rsp, 16",
        " mov       qword [rbp-8], 1",
        " mov       qword [rbp-16], 0",
        "label_0:",
        " mov       rax, [rbp-16]",
        " add       rax, [rbp-8]",
        " mov       qword [rbp-16], rax",
        " mov       rax, [rbp-8]",
        " add       rax, 1",
        " mov       qword [rbp-8], rax",
        " mov       rax, [rbp-8]",
        " cmp       rax, 10",
        " jg        label_1",
        " jmp       label_0",
        "label_1:",
        " mov       rax, [rbp-16]",
        " mov       rax, rax",
        " ; exiting 1 block",
        " add       rsp, 16",
        " ret       0",
        " ; exiting 1 block",
        " add       rsp, 16",
        " ret       0",
        " ; exiting 1 block",
        " add       rsp, 16",
    ]);
    assert_eq!(text, expected);
}

/// A function with blocks nested three deep: two locals in the entry, one
/// in the middle block, three in the innermost.
fn nested() -> (Func, Vec<LocalRef>) {
    let mut f = Func::new("deep");
    let e = f.entry;
    let mid = f.push_block();
    let inner = f.push_block();
    let a = e.borrow_mut(&mut f).push_local("a", Type::I64);
    let b = e.borrow_mut(&mut f).push_local("b", Type::I64);
    let c = mid.borrow_mut(&mut f).push_local("c", Type::I64);
    let d = inner.borrow_mut(&mut f).push_local("d", Type::I64);
    let g = inner.borrow_mut(&mut f).push_local("g", Type::I64);
    let h = inner.borrow_mut(&mut f).push_local("h", Type::I64);
    (f, vec![a, b, c, d, g, h])
}

#[test]
fn offsets_are_contiguous_and_stack_on_the_outer_blocks() {
    let (f, l) = nested();
    let mut st = Stack::new(&f);
    st.push(BlockRef(0));
    assert_eq!(st.offset(l[0]), 8);
    assert_eq!(st.offset(l[1]), 16);
    st.push(BlockRef(1));
    assert_eq!(st.offset(l[0]), 8);
    assert_eq!(st.offset(l[1]), 16);
    assert_eq!(st.offset(l[2]), 24);
    st.push(BlockRef(2));
    assert_eq!(st.offset(l[0]), 8);
    assert_eq!(st.offset(l[1]), 16);
    assert_eq!(st.offset(l[2]), 24);
    assert_eq!(st.offset(l[3]), 32);
    assert_eq!(st.offset(l[4]), 40);
    assert_eq!(st.offset(l[5]), 48);
    for w in l.windows(2) {
        let earlier = w[0].borrow(&f).typ;
        if w[0].0 == w[1].0 {
            assert_eq!(st.offset(w[1]) - st.offset(w[0]), 8);
            assert_eq!(earlier, Type::I64);
        }
    }
    assert_eq!(st.top(), BlockRef(2));
}

#[test]
fn an_offset_does_not_depend_on_the_blocks_above() {
    let (f, l) = nested();
    let mut shallow = Stack::new(&f);
    shallow.push(BlockRef(0));
    shallow.push(BlockRef(2));
    assert_eq!(shallow.offset(l[3]), 24);
    assert_eq!(shallow.offset(l[0]), 8);
}

#[test]
fn a_return_gives_back_the_room_of_every_block() {
    let (mut f, l) = nested();
    BlockRef(0).borrow_mut(&mut f).push_op(Op::block(BlockRef(1)));
    BlockRef(1).borrow_mut(&mut f).push_op(Op::block(BlockRef(2)));
    BlockRef(2).borrow_mut(&mut f).push_op(Op::ret_some(l[5]));
    assert!(is_emittable(&f));
    let mut out = String::new();
    emit_func(&mut out, &f);
    let expected = listing(&[
        " mov       rbp, rsp",
        " ; block prologue start",
        " sub       rsp, 16",
        " ; block prologue start",
        " sub       rsp, 8",
        " ; block prologue start",
        " sub       rsp, 24",
        " mov       rax, [rbp-48]",
        " ; exiting 3 blocks",
        " add       rsp, 48",
        " ret       0",
        " ; exiting 1 block",
        " add       rsp, 24",
        " ; exiting 1 block",
        " add       rsp, 8",
        " ; exiting 1 block",
        " add       rsp, 16",
        " ret       0",
        " ; exiting 1 block",
        " add       rsp, 16",
    ]);
    assert_eq!(out, expected);
}

#[test]
fn leaving_counts_the_blocks_on_top() {
    let (f, _) = nested();
    let mut st = Stack::new(&f);
    st.push(BlockRef(0));
    st.push(BlockRef(1));
    st.push(BlockRef(2));
    st.exit_n_blocks(0);
    st.exit_n_blocks(1);
    st.exit_n_blocks(2);
    st.exit_all_blocks();
    assert_eq!(st.blocks, vec![BlockRef(0), BlockRef(1), BlockRef(2)]);
    let expected = listing(&[
        " ; exiting 0 blocks",
        " add       rsp, 0",
        " ; exiting 1 block",
        " add       rsp, 24",
        " ; exiting 2 blocks",
        " add       rsp, 32",
        " ; exiting 3 blocks",
        " add       rsp, 48",
    ]);
    assert_eq!(st.out, expected);
    st.pop();
    assert_eq!(st.blocks, vec![BlockRef(0), BlockRef(1)]);
    assert!(st.out.ends_with(&listing(&[" ; exiting 1 block", " add       rsp, 24"])));
}

#[test]
fn entering_and_leaving_a_nested_block_restores_the_stack() {
    let (mut f, l) = nested();
    BlockRef(1).borrow_mut(&mut f).push_op(Op::mov(l[2], 3i64));
    BlockRef(1).borrow_mut(&mut f).push_op(Op::block(BlockRef(2)));
    BlockRef(2).borrow_mut(&mut f).push_op(Op::mov(l[4], l[0]));
    for depth in 0..2 {
        let mut st = Stack::new(&f);
        for b in 0..depth {
            st.push(BlockRef(b));
        }
        let before = st.blocks.clone();
        emit_op(&mut st, &Op::block(BlockRef(depth)));
        assert_eq!(st.blocks, before);
        assert_eq!(st.blocks.len(), depth);
    }
    let mut st = Stack::new(&f);
    st.push(BlockRef(0));
    emit_op(&mut st, &Op::block(BlockRef(1)));
    assert_eq!(st.blocks, vec![BlockRef(0)]);
    let expected = listing(&[
        " ; block prologue start",
        " sub       rsp, 8",
        " mov       qword [rbp-24], 3",
        " ; block prologue start",
        " sub       rsp, 24",
        " mov       qword [rbp-40], [rbp-8]",
        " ; exiting 1 block",
        " add       rsp, 24",
        " ; exiting 1 block",
        " add       rsp, 8",
    ]);
    assert_eq!(st.out, expected);
}

#[test]
fn operands_in_every_form() {
    let (f, l) = nested();
    let mut st = Stack::new(&f);
    st.push(BlockRef(0));
    for loc in [
        Location::Register(Reg::R12),
        Location::Local(l[1]),
        Reg::RSP.displaced(0),
        Reg::RBX.displaced(8),
        Reg::RBX.displaced(-8),
        Reg::RAX.displaced(i64::MAX),
        Reg::RAX.displaced(i64::MIN),
        Location::Imm64(-5),
        Location::Imm64(0),
    ] {
        emit_opsize(&mut st, &loc);
        emit_location(&mut st, &loc);
        st.out.push('\n');
    }
    let expected = "r12\nqword [rbp-16]\nqword [rsp]\nqword [rbx+8]\nqword [rbx-8]\n\
qword [rax+9223372036854775807]\nqword [rax-9223372036854775808]\n-5\n0\n";
    assert_eq!(st.out, expected);
}

#[test]
fn every_simple_operation() {
    let mut labels = LabelGen::starting_at(7);
    let mut f = Func::new("f");
    let e = f.entry;
    let x = e.borrow_mut(&mut f).push_local("x", Type::I64);
    let l = e.borrow_mut(&mut f).new_label(&mut labels);
    let mut st = Stack::new(&f);
    st.push(e);
    emit_simple_op(&mut st, &Op::xor(Reg::RAX, Reg::RAX));
    emit_simple_op(&mut st, &Op::mov(x, Reg::RDI));
    emit_simple_op(&mut st, &Op::add(x, 2i64));
    emit_simple_op(&mut st, &Op::sub(Reg::RCX, x));
    emit_simple_op(&mut st, &Op::cmp(x, -1i64));
    emit_simple_op(&mut st, &Op::jg(l));
    emit_simple_op(&mut st, &Op::jmp(l));
    emit_simple_op(&mut st, &Op::label(l));
    emit_simple_op(&mut st, &Op::comment("one two"));
    emit_simple_op(&mut st, &Op::Comment(None));
    emit_simple_op(&mut st, &Op::block(e));
    emit_simple_op(&mut st, &Op::ret_none());
    emit_simple_op(&mut st, &Op::ret_some(7i64));
    let expected = listing(&[
        " xor       rax, rax",
        " mov       qword [rbp-8], rdi",
        " add       qword [rbp-8], 2",
        " sub       rcx, [rbp-8]",
        " cmp       qword [rbp-8], -1",
        " jg        label_7",
        " jmp       label_7",
        "label_7:",
        " ; one two",
        " ; ",
        " ; exiting 1 block",
        " add       rsp, 8",
        " ret       0",
        " mov       rax, 7",
        " ; exiting 1 block",
        " add       rsp, 8",
        " ret       0",
    ]);
    assert_eq!(st.out, expected);
    assert_eq!(st.blocks, vec![e]);
}

#[test]
fn line_pieces() {
    let f = Func::new("f");
    let mut st = Stack::new(&f);
    comment(&mut st, "hello");
    instruction(&mut st, "jg");
    st.out.push_str("x\n");
    instruction(&mut st, "a_long_mnemonic");
    st.out.push_str("|\n");
    assert_eq!(st.out, "            ; hello\n            jg        x\n            a_long_mnemonic|\n");
}

#[test]
fn a_block_is_written_with_its_prologue() {
    let (mut f, l) = nested();
    BlockRef(2).borrow_mut(&mut f).push_op(Op::add(l[3], 1i64));
    let mut st = Stack::new(&f);
    st.push(BlockRef(0));
    st.push(BlockRef(2));
    emit_block(&mut st, BlockRef(2));
    let expected = listing(&[
        " ; block prologue start",
        " sub       rsp, 24",
        " add       qword [rbp-24], 1",
    ]);
    assert_eq!(st.out, expected);
    assert_eq!(st.blocks, vec![BlockRef(0), BlockRef(2)]);
}

fn count_lines(text: &str, line: &str) -> usize {
    text.lines().filter(|l| *l == line).count()
}

#[test]
fn public_functions_get_one_global_directive_and_every_function_one_label() {
    let mut a = Func::new("alpha");
    a.public = true;
    let b = Func::new("beta");
    let mut c = Func::new("gamma");
    c.public = true;
    let text = emit_all(&vec![a, b, c]);
    assert_eq!(count_lines(&text, "            global alpha"), 1);
    assert_eq!(count_lines(&text, "            global beta"), 0);
    assert_eq!(count_lines(&text, "            global gamma"), 1);
    assert_eq!(count_lines(&text, "alpha:"), 1);
    assert_eq!(count_lines(&text, "beta:"), 1);
    assert_eq!(count_lines(&text, "gamma:"), 1);
    assert_eq!(count_lines(&text, "            section .text"), 1);
    let lines: Vec<&str> = text.lines().collect();
    assert_eq!(lines[0], "            global alpha");
    assert_eq!(lines[1], "            global gamma");
    assert_eq!(lines[2], "            section .text");
    assert_eq!(lines[3], "alpha:");
    let beta = lines.iter().position(|l| *l == "beta:").unwrap();
    let gamma = lines.iter().position(|l| *l == "gamma:").unwrap();
    assert!(3 < beta && beta < gamma);
    assert_eq!(text.matches("global").count(), 2);
}

#[test]
fn no_functions_no_code() {
    assert_eq!(emit_all(&Vec::new()), "            section .text\n");
}

#[test]
fn girth_that_fits_is_computed() {
    let (f, _) = nested();
    assert_eq!(checked_girth(&f.blocks[0]), Some(16));
    assert_eq!(checked_girth(&f.blocks[1]), Some(8));
    assert_eq!(checked_girth(&f.blocks[2]), Some(24));
    assert_eq!(checked_girth(&Func::new("f").blocks[0]), Some(0));
}

#[test]
fn what_cannot_be_emitted_is_told_apart() {
    let ok = Func::new("f");
    assert!(is_emittable(&ok));

    let mut no_entry = Func::new("f");
    no_entry.entry = BlockRef(1);
    assert!(!is_emittable(&no_entry));

    let mut foreign_local = Func::new("f");
    foreign_local.entry.borrow_mut(&mut foreign_local).push_op(Op::mov(LocalRef(BlockRef(0), 0), 1i64));
    assert!(!is_emittable(&foreign_local));

    let mut foreign_label = Func::new("f");
    foreign_label.entry.borrow_mut(&mut foreign_label).push_op(Op::jmp(LabelRef(BlockRef(0), 0)));
    assert!(!is_emittable(&foreign_label));

    let mut missing_block = Func::new("f");
    missing_block.entry.borrow_mut(&mut missing_block).push_op(Op::block(BlockRef(1)));
    assert!(!is_emittable(&missing_block));

    let mut own_block = Func::new("f");
    own_block.entry.borrow_mut(&mut own_block).push_op(Op::block(BlockRef(0)));
    assert!(!is_emittable(&own_block));

    let mut earlier_block = Func::new("f");
    let b1 = earlier_block.push_block();
    let b2 = earlier_block.push_block();
    BlockRef(0).borrow_mut(&mut earlier_block).push_op(Op::block(b2));
    b2.borrow_mut(&mut earlier_block).push_op(Op::block(b1));
    assert!(!is_emittable(&earlier_block));

    let mut sibling_local = Func::new("f");
    let b1 = sibling_local.push_block();
    let b2 = sibling_local.push_block();
    let x = b1.borrow_mut(&mut sibling_local).push_local("x", Type::I64);
    BlockRef(0).borrow_mut(&mut sibling_local).push_op(Op::block(b1));
    BlockRef(0).borrow_mut(&mut sibling_local).push_op(Op::block(b2));
    b2.borrow_mut(&mut sibling_local).push_op(Op::ret_some(x));
    assert!(!is_emittable(&sibling_local));

    let mut outer_local = Func::new("f");
    let b1 = outer_local.push_block();
    let y = BlockRef(0).borrow_mut(&mut outer_local).push_local("y", Type::I64);
    BlockRef(0).borrow_mut(&mut outer_local).push_op(Op::block(b1));
    b1.borrow_mut(&mut outer_local).push_op(Op::ret_some(y));
    assert!(is_emittable(&outer_local));

    let mut dead_block = Func::new("f");
    let dead = dead_block.push_block();
    dead.borrow_mut(&mut dead_block).push_op(Op::jmp(LabelRef(BlockRef(9), 9)));
    assert!(is_emittable(&dead_block));
}

#[test]
fn a_block_that_is_named_twice_is_written_twice() {
    let mut f = Func::new("f");
    let b = f.push_block();
    BlockRef(0).borrow_mut(&mut f).push_op(Op::block(b));
    BlockRef(0).borrow_mut(&mut f).push_op(Op::block(b));
    b.borrow_mut(&mut f).push_op(Op::comment("twice"));
    assert!(is_emittable(&f));
    let mut out = String::new();
    emit_func(&mut out, &f);
    assert_eq!(out.matches("; twice").count(), 2);
}
