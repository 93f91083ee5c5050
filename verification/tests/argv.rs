use taskcore::argv::layout_args;

#[test]
fn arguments_lie_below_argv() {
    let args = vec![String::from("ls"), String::from("-al")];
    let stack = layout_args(0x1000, &args);
    assert_eq!(stack.argv_base, 0x1000 - 24);
    assert_eq!(stack.argv, vec![0x1000 - 24 - 3, 0x1000 - 24 - 3 - 4, 0]);
    assert_eq!(stack.strings, vec![b"ls\0".to_vec(), b"-al\0".to_vec()]);
    assert_eq!(stack.user_sp, 0x1000 - 32);
}

#[test]
fn no_arguments_leave_a_null_pointer() {
    let stack = layout_args(0x1000, &vec![]);
    assert_eq!(stack.argv_base, 0xff8);
    assert_eq!(stack.argv, vec![0]);
    assert_eq!(stack.strings, Vec::<Vec<u8>>::new());
    assert_eq!(stack.user_sp, 0xff8);
}

#[test]
fn lengths_are_in_bytes() {
    let stack = layout_args(0x2000, &vec![String::from("é"), String::new()]);
    assert_eq!(stack.strings[0], vec![0xc3, 0xa9, 0]);
    assert_eq!(stack.argv[0], 0x2000 - 24 - 3);
    assert_eq!(stack.argv[1], 0x2000 - 24 - 4);
    assert_eq!(stack.user_sp % 8, 0);
}

#[test]
fn writes_do_not_collide() {
    let args: Vec<String> = (0..9).map(|n| "x".repeat(n * n)).collect();
    let top = 0x8000;
    let stack = layout_args(top, &args);
    let mut memory = vec![None; top];
    for (i, pointer) in stack.argv.iter().enumerate() {
        for (k, byte) in pointer.to_le_bytes().iter().enumerate() {
            let cell = &mut memory[stack.argv_base + 8 * i + k];
            assert_eq!(*cell, None);
            *cell = Some(*byte);
        }
    }
    for (i, string) in stack.strings.iter().enumerate() {
        for (k, byte) in string.iter().enumerate() {
            let cell = &mut memory[stack.argv[i] + k];
            assert_eq!(*cell, None);
            *cell = Some(*byte);
        }
    }
    for (i, arg) in args.iter().enumerate() {
        let read: Vec<u8> = (stack.argv[i]..)
            .map(|at| memory[at].unwrap())
            .take_while(|byte| *byte != 0)
            .collect();
        assert_eq!(read, arg.as_bytes());
    }
    assert!(memory[..stack.user_sp].iter().all(|cell| cell.is_none()));
}

#[test]
fn the_stack_may_be_filled_to_the_last_byte() {
    let stack = layout_args(16 + 2, &vec![String::from("a")]);
    assert_eq!(stack.argv, vec![0, 0]);
    assert_eq!(stack.user_sp, 0);
}
