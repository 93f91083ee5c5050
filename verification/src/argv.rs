//! How the arguments of a program lie on its first stack.
//!
//! From the top down: the array `argv`, ended by a null pointer; the strings, each ended by a
//! zero byte, the first one highest; and what it takes to align the stack pointer.

use vstd::prelude::*;
use vstd::utf8::encode_utf8;

verus! {

/// The size of a pointer in bytes.
pub const WORD: usize = 8;

/// The bytes of an argument.
pub open spec fn arg_bytes(arg: String) -> Seq<u8> {
    encode_utf8(arg@)
}

/// The number of bytes that the first `n` arguments take with their zero bytes.
pub open spec fn strings_size(args: Seq<String>, n: int) -> int
    decreases n,
{
    if n <= 0 {
        0
    } else {
        strings_size(args, n - 1) + arg_bytes(args[n - 1]).len() + 1
    }
}

/// The number of bytes that all of the arguments take, with `argv`.
pub open spec fn args_size(args: Seq<String>) -> int {
    WORD * (args.len() + 1) + strings_size(args, args.len() as int)
}

/// Where `argv` starts on a stack with its top at `top`.
pub open spec fn argv_addr(top: int, args: Seq<String>) -> int {
    top - WORD * (args.len() + 1)
}

/// Where argument `i` starts on a stack with its top at `top`.
pub open spec fn arg_addr(top: int, args: Seq<String>, i: int) -> int {
    argv_addr(top, args) - strings_size(args, i + 1)
}

/// What `exec` puts onto the user stack.
#[derive(Debug, PartialEq, Eq)]
pub struct ArgStack {
    /// Address of `argv[0]`.
    pub argv_base: usize,
    /// The pointers to write from `argv_base` on, one word each.
    pub argv: Vec<usize>,
    /// The bytes to write from `argv[i]` on, for each argument `i`.
    pub strings: Vec<Vec<u8>>,
    /// The user stack pointer below all of that.
    pub user_sp: usize,
}

impl ArgStack {
    /// This is how `args` lie on a stack with its top at `top`.
    pub open spec fn holds(&self, top: int, args: Seq<String>) -> bool {
        &&& self.argv_base == argv_addr(top, args)
        &&& self.argv.len() == args.len() + 1
        &&& forall|i: int|
            0 <= i < args.len() ==> #[trigger] self.argv@[i] == arg_addr(top, args, i)
        &&& self.argv@[args.len() as int] == 0
        &&& self.strings.len() == args.len()
        &&& forall|i: int|
            0 <= i < args.len() ==> #[trigger] self.strings@[i]@ == arg_bytes(args[i]).push(0u8)
        &&& self.user_sp == (top - args_size(args)) - (top - args_size(args)) % (WORD as int)
    }
}

/// Copies the bytes of an argument and ends them with a zero byte.
fn terminated(arg: &String) -> (bytes: Vec<u8>)
    ensures
        bytes@ == arg_bytes(*arg).push(0u8),
{
    let text: &[u8] = arg.as_str().as_bytes();
    let mut bytes: Vec<u8> = Vec::new();
    let mut p: usize = 0;
    while p < text.len()
        invariant
            p <= text.len(),
            bytes@ == text@.take(p as int),
        decreases text.len() - p,
    {
        bytes.push(text[p]);
        p += 1;
    }
    bytes.push(0);
    assert(bytes@ =~= arg_bytes(*arg).push(0u8));
    bytes
}

proof fn lemma_strings_size_monotone(args: Seq<String>, m: int, n: int)
    requires
        0 <= m <= n,
    ensures
        0 <= strings_size(args, m) <= strings_size(args, n),
        strings_size(args, n) >= n,
    decreases n,
{
    if n > 0 {
        if m < n {
            lemma_strings_size_monotone(args, m, n - 1);
        } else {
            lemma_strings_size_monotone(args, m - 1, n - 1);
        }
    }
}

/// Lays out `args` on a stack with its top at `top`.
pub fn layout_args(top: usize, args: &Vec<String>) -> (stack: ArgStack)
    requires
        args_size(args@) <= top,
    ensures
        stack.holds(top as int, args@),
{
    let n: usize = args.len();
    proof {
        lemma_strings_size_monotone(args@, 0, n as int);
    }
    let argv_base: usize = top - (n + 1) * WORD;
    let mut user_sp: usize = argv_base;
    let mut argv: Vec<usize> = Vec::new();
    let mut strings: Vec<Vec<u8>> = Vec::new();
    let mut i: usize = 0;
    while i < n
        invariant
            i <= n,
            n == args.len(),
            args_size(args@) <= top,
            argv_base == argv_addr(top as int, args@),
            user_sp == argv_base - strings_size(args@, i as int),
            argv.len() == i,
            strings.len() == i,
            forall|k: int|
                0 <= k < i ==> #[trigger] argv@[k] == arg_addr(top as int, args@, k),
            forall|k: int|
                0 <= k < i ==> #[trigger] strings@[k]@ == arg_bytes(args@[k]).push(0u8),
        decreases n - i,
    {
        let bytes = terminated(&args[i]);
        proof {
            lemma_strings_size_monotone(args@, i as int + 1, n as int);
        }
        user_sp = user_sp - bytes.len();
        argv.push(user_sp);
        strings.push(bytes);
        i += 1;
    }
    argv.push(0);
    user_sp = user_sp - user_sp % WORD;
    ArgStack { argv_base, argv, strings, user_sp }
}

/// The arguments do not overlap: argument `i` with its zero byte ends where the one before it
/// starts or, for the first one, where `argv` starts, and `argv` ends at the top of the stack.
pub proof fn law_arguments_are_disjoint(top: int, args: Seq<String>, i: int, j: int)
    requires
        0 <= i < j < args.len(),
    ensures
        arg_addr(top, args, j) + arg_bytes(args[j]).len() + 1 <= arg_addr(top, args, i),
        arg_addr(top, args, i) + arg_bytes(args[i]).len() + 1 <= argv_addr(top, args),
        argv_addr(top, args) + WORD * (args.len() + 1) == top,
{
    lemma_strings_size_monotone(args, i + 1, j);
    lemma_strings_size_monotone(args, 0, i);
}

/// The stack pointer that the program starts with is a multiple of the word size, and lies below
/// everything that was put onto the stack by less than a word.
pub proof fn law_stack_pointer_is_aligned(stack: ArgStack, top: int, args: Seq<String>)
    requires
        stack.holds(top, args),
    ensures
        stack.user_sp % WORD == 0,
        stack.user_sp <= top - args_size(args) < stack.user_sp + WORD,
        stack.user_sp <= stack.argv_base,
        forall|i: int|
            0 <= i < args.len() ==> stack.user_sp <= #[trigger] stack.argv@[i] < stack.argv_base,
{
    lemma_strings_size_monotone(args, 0, args.len() as int);
    assert forall|i: int| 0 <= i < args.len() implies stack.user_sp <= #[trigger] stack.argv@[i]
        < stack.argv_base by {
        lemma_strings_size_monotone(args, i + 1, args.len() as int);
        lemma_strings_size_monotone(args, 0, i);
    }
}

/// No two writes touch the same byte, so each argument reads back as it was written: byte `k` of
/// argument `i` lies neither in another argument nor in `argv`.
pub proof fn law_writes_do_not_collide(
    stack: ArgStack,
    top: int,
    args: Seq<String>,
    i: int,
    k: int,
    j: int,
    m: int,
)
    requires
        stack.holds(top, args),
        0 <= i < args.len(),
        0 <= k < stack.strings@[i].len(),
        0 <= j < args.len(),
        0 <= m < stack.strings@[j].len(),
    ensures
        stack.argv@[i] + k == stack.argv@[j] + m ==> i == j && k == m,
        stack.argv@[i] + k < stack.argv_base,
{
    assert(stack.strings@[i]@ == arg_bytes(args[i]).push(0u8));
    assert(stack.strings@[j]@ == arg_bytes(args[j]).push(0u8));
    lemma_strings_size_monotone(args, 0, i);
    if i < j {
        law_arguments_are_disjoint(top, args, i, j);
    }
    if j < i {
        law_arguments_are_disjoint(top, args, j, i);
    }
}

/// A program finds its arguments: `argv` ends at the top of the stack with a null pointer, entry
/// `i` points to the bytes of argument `i` in order and a zero byte after them, the first argument
/// ends where `argv` starts, each further one where the one before it starts, and the stack
/// pointer is the multiple of the word size at or just below the last one.
pub proof fn law_arguments_are_found(stack: ArgStack, top: int, args: Seq<String>)
    requires
        stack.holds(top, args),
        args_size(args) <= top,
    ensures
        stack.argv.len() == args.len() + 1,
        stack.strings.len() == args.len(),
        stack.argv_base + 8 * (args.len() + 1) == top,
        stack.argv@[args.len() as int] == 0,
        forall|i: int|
            0 <= i < args.len() ==> (#[trigger] stack.strings@[i])@.drop_last() == encode_utf8(
                args[i]@,
            ) && stack.strings@[i]@.len() == encode_utf8(args[i]@).len() + 1
                && stack.strings@[i]@.last() == 0,
        args.len() > 0 ==> stack.argv@[0] + stack.strings@[0].len() == stack.argv_base,
        forall|i: int, j: int|
            0 <= i && j == i + 1 && j < args.len() ==> #[trigger] stack.argv@[j]
                + stack.strings@[j].len() == #[trigger] stack.argv@[i],
        stack.user_sp % 8 == 0,
        ({
            let lowest = if args.len() == 0 {
                stack.argv_base
            } else {
                stack.argv@[args.len() - 1]
            };
            &&& stack.user_sp <= lowest < stack.user_sp + 8
            &&& args_size(args) == top - lowest
        }),
{
    assert forall|i: int| 0 <= i < args.len() implies (
    #[trigger] stack.strings@[i])@.drop_last() == encode_utf8(args[i]@)
        && stack.strings@[i]@.len() == encode_utf8(args[i]@).len() + 1
        && stack.strings@[i]@.last() == 0 by {
        assert(stack.strings@[i]@.drop_last() =~= arg_bytes(args[i]));
    }
    if args.len() > 0 {
        assert(stack.strings@[0]@ == arg_bytes(args[0]).push(0u8));
        reveal_with_fuel(strings_size, 2);
    }
    assert forall|i: int, j: int| 0 <= i && j == i + 1 && j < args.len() implies
        #[trigger] stack.argv@[j] + stack.strings@[j].len() == #[trigger] stack.argv@[i] by {
        assert(stack.strings@[j]@ == arg_bytes(args[j]).push(0u8));
    }
}

} // verus!
