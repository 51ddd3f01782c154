use melbi::vm::heap::Object;
use melbi::vm::instruction_set::Instruction;
use melbi::vm::instruction_set::Instruction::{
    And, ArrayGet, ArrayGetConst, ConstFalse, ConstInt, ConstLoad, ConstTrue, DecInt, Dup, DupN, FloatBinOp, Halt, IncInt, IntBinOp, IntCmpOp, Jump, JumpIfFalse, JumpIfTrue, LoadLocal, MakeArray, MakeMap, MakeRecord, MapGet, NegInt, Not, Or, Pop, PopOtherwise, PopOtherwiseAndJump, PushOtherwise, RecordGet, Return, StoreLocal, Swap, WideArg,
};
use melbi::vm::runtime::{run, run_main_loop, step, Code, RuntimeError, Step, VmState};

const FUEL: usize = 1000;

fn code(constants: Vec<i64>, instructions: Vec<Instruction>) -> Code {
    sized(16, constants, instructions)
}

fn sized(max_stack_size: usize, constants: Vec<i64>, instructions: Vec<Instruction>) -> Code {
    Code { instructions, constants, max_stack_size }
}

fn words(vm: &VmState) -> Vec<i64> {
    vm.stack.iter().copied().collect()
}

/// Runs the code to its end and gives the value it leaves on the stack.
fn eval(code: &Code) -> i64 {
    let mut vm = VmState::new(code);
    assert_eq!(run(&mut vm, code, FUEL), Ok(Step::Done));
    let value = vm.stack.pop().unwrap();
    assert!(vm.stack.is_empty());
    value
}

#[test]
fn test_works() {
    let c = sized(2, vec![42], vec![ConstLoad(0), ConstInt(2), IntBinOp(b'*'), Return]);
    assert_eq!(eval(&c), 84);
}

#[test]
fn test_wide() {
    let mut constants = vec![2];
    constants.resize(257, 0);
    constants[256] = 42;
    let c = sized(
        2,
        constants,
        vec![ConstLoad(0), WideArg(0x01), ConstLoad(0x00), IntBinOp(b'*'), Return],
    );
    assert_eq!(eval(&c), 84);
}

#[test]
fn test_int_comparisons() {
    let c = sized(2, vec![], vec![ConstInt(5), ConstInt(10), IntCmpOp(b'<'), Return]);
    assert_eq!(eval(&c), 1);
    let c = sized(2, vec![], vec![ConstInt(42), ConstInt(42), IntCmpOp(b'='), Return]);
    assert_eq!(eval(&c), 1);
}

/// Runs the code, performing the float additions that the loop hands out.
fn eval_with_floats(code: &Code) -> i64 {
    let mut vm = VmState::new(code);
    loop {
        match run(&mut vm, code, FUEL) {
            Ok(Step::Done) => return vm.stack.pop().unwrap(),
            Ok(Step::Outside(FloatBinOp(b'+'))) => {
                let b = f64::from_bits(vm.stack.pop().unwrap() as u64);
                let a = f64::from_bits(vm.stack.pop().unwrap() as u64);
                vm.stack.push((a + b).to_bits() as i64);
            }
            other => panic!("unexpected {:?}", other),
        }
    }
}

#[test]
fn test_float_ops() {
    let c = sized(
        2,
        vec![3.5f64.to_bits() as i64, 2.0f64.to_bits() as i64],
        vec![ConstLoad(0), ConstLoad(1), FloatBinOp(b'+'), Return],
    );
    assert_eq!(f64::from_bits(eval_with_floats(&c) as u64), 5.5);
}

#[test]
fn test_logical_ops() {
    let c = sized(2, vec![], vec![ConstTrue, ConstFalse, And, Return]);
    assert_eq!(eval(&c), 0);
    let c = sized(2, vec![], vec![ConstTrue, ConstFalse, Or, Return]);
    assert_eq!(eval(&c), 1);
    let c = sized(1, vec![], vec![ConstFalse, Not, Return]);
    assert_eq!(eval(&c), 1);
}

#[test]
fn test_stack_ops() {
    let c = sized(2, vec![], vec![ConstInt(42), DupN(0), IntBinOp(b'+'), Return]);
    assert_eq!(eval(&c), 84);
    let c = sized(2, vec![], vec![ConstInt(10), ConstInt(5), Swap, IntBinOp(b'-'), Return]);
    assert_eq!(eval(&c), -5);
}

#[test]
fn test_local_vars() {
    let c = sized(
        2,
        vec![],
        vec![ConstInt(42), StoreLocal(0), ConstInt(10), LoadLocal(0), IntBinOp(b'+'), Return],
    );
    assert_eq!(eval(&c), 52);
}

#[test]
fn test_jumps() {
    let c = sized(
        2,
        vec![],
        vec![
            ConstInt(1),
            Jump(2),
            ConstInt(50),
            ConstInt(60),
            ConstInt(3),
            IntBinOp(b'+'),
            Return,
        ],
    );
    assert_eq!(eval(&c), 4);
}

#[test]
fn test_conditional_jumps() {
    let c = sized(2, vec![], vec![ConstTrue, JumpIfTrue(1), ConstInt(99), ConstInt(42), Return]);
    assert_eq!(eval(&c), 42);
    let c = sized(2, vec![], vec![ConstTrue, JumpIfFalse(1), ConstInt(42), Return, ConstInt(99)]);
    assert_eq!(eval(&c), 42);
}

#[test]
fn test_unary_ops() {
    assert_eq!(eval(&sized(1, vec![], vec![ConstInt(42), NegInt, Return])), -42);
    assert_eq!(eval(&sized(1, vec![], vec![ConstInt(41), IncInt, Return])), 42);
    assert_eq!(eval(&sized(1, vec![], vec![ConstInt(43), DecInt, Return])), 42);
}

#[test]
fn division_and_remainder() {
    assert_eq!(eval(&code(vec![], vec![ConstInt(-7), ConstInt(2), IntBinOp(b'/'), Return])), -3);
    assert_eq!(eval(&code(vec![], vec![ConstInt(-7), ConstInt(2), IntBinOp(b'%'), Return])), -1);
}

#[test]
fn division_by_zero_is_a_runtime_error() {
    let c = code(vec![], vec![ConstInt(1), ConstInt(0), IntBinOp(b'/'), Return]);
    let mut vm = VmState::new(&c);
    assert_eq!(run(&mut vm, &c, FUEL), Err(RuntimeError::DivisionByZero));
    assert!(vm.stack.is_empty());
    let c = code(vec![], vec![ConstInt(1), ConstInt(0), IntBinOp(b'%'), Return]);
    let mut vm = VmState::new(&c);
    assert_eq!(run(&mut vm, &c, FUEL), Err(RuntimeError::DivisionByZero));
}

#[test]
fn smallest_integer_by_minus_one_overflows() {
    let c = code(vec![i64::MIN], vec![ConstLoad(0), ConstInt(-1), IntBinOp(b'/'), Return]);
    let mut vm = VmState::new(&c);
    assert_eq!(run(&mut vm, &c, FUEL), Err(RuntimeError::IntegerOverflow));
}

#[test]
fn addition_wraps() {
    let c = code(vec![i64::MAX], vec![ConstLoad(0), IncInt, Return]);
    assert_eq!(eval(&c), i64::MIN);
}

#[test]
fn otherwise_handler_takes_a_runtime_error() {
    // 1 / 0 otherwise 7
    let c = code(
        vec![],
        vec![
            PushOtherwise(4),
            ConstInt(1),
            ConstInt(0),
            IntBinOp(b'/'),
            PopOtherwiseAndJump(2),
            PopOtherwise,
            ConstInt(7),
            Return,
        ],
    );
    assert_eq!(eval(&c), 7);
    // 6 / 2 otherwise 7
    let c = code(
        vec![],
        vec![
            PushOtherwise(4),
            ConstInt(6),
            ConstInt(2),
            IntBinOp(b'/'),
            PopOtherwiseAndJump(2),
            PopOtherwise,
            ConstInt(7),
            Return,
        ],
    );
    assert_eq!(eval(&c), 3);
}

#[test]
fn main_loop_does_not_recover() {
    let c = code(
        vec![],
        vec![PushOtherwise(3), ConstInt(1), ConstInt(0), IntBinOp(b'/'), ConstInt(7), Return],
    );
    let mut vm = VmState::new(&c);
    assert_eq!(run_main_loop(&mut vm, &c, FUEL), Err(RuntimeError::DivisionByZero));
    assert_eq!(vm.ip, 4);
    assert_eq!(vm.handlers.len(), 1);
}

#[test]
fn malformed_code_is_refused() {
    for c in [
        code(vec![], vec![Pop]),
        code(vec![], vec![ConstLoad(3)]),
        code(vec![], vec![Jump(5)]),
        code(vec![], vec![]),
        sized(1, vec![], vec![ConstInt(1), ConstInt(2), IntBinOp(b'+'), Return]),
    ] {
        let mut vm = VmState::new(&c);
        assert_eq!(run(&mut vm, &c, FUEL), Err(RuntimeError::Malformed));
    }
}

#[test]
fn wide_arg_widens_only_the_next_operand() {
    let mut constants = vec![5];
    constants.resize(257, 0);
    constants[256] = 42;
    let c = code(constants, vec![WideArg(1), ConstLoad(0), ConstLoad(0), IntBinOp(b'+'), Return]);
    assert_eq!(eval(&c), 47);
}

#[test]
fn integer_power() {
    let c = code(vec![], vec![ConstInt(2), ConstInt(10), IntBinOp(b'^'), Return]);
    assert_eq!(eval(&c), 1024);
    let c = code(vec![], vec![ConstInt(-3), ConstInt(3), IntBinOp(b'^'), Return]);
    assert_eq!(eval(&c), -27);
    let c = code(vec![], vec![ConstInt(7), ConstInt(0), IntBinOp(b'^'), Return]);
    assert_eq!(eval(&c), 1);
}

#[test]
fn integer_power_wraps() {
    let c = code(vec![], vec![ConstInt(3), ConstInt(40), IntBinOp(b'^'), Return]);
    assert_eq!(eval(&c), 3i64.wrapping_pow(40));
    let c = code(vec![], vec![ConstInt(2), ConstInt(64), IntBinOp(b'^'), Return]);
    assert_eq!(eval(&c), 0);
    let c = code(vec![4_000_000_000], vec![ConstInt(-1), ConstLoad(0), IntBinOp(b'^'), Return]);
    assert_eq!(eval(&c), 1);
}

#[test]
fn power_with_a_negative_exponent_is_handed_out() {
    let c = code(vec![], vec![ConstInt(2), ConstInt(-3), IntBinOp(b'^'), Return]);
    let mut vm = VmState::new(&c);
    assert_eq!(run(&mut vm, &c, FUEL), Ok(Step::Outside(IntBinOp(b'^'))));
    assert_eq!(vm.ip, 3);
    assert_eq!(words(&vm), vec![2, -3]);
}

#[test]
fn fuel_bounds_a_loop() {
    // an endless loop: jump back to itself
    let c = code(vec![], vec![Jump(-1)]);
    let mut vm = VmState::new(&c);
    assert_eq!(run(&mut vm, &c, 10), Ok(Step::Continue));
    assert_eq!(vm.ip, 0);
}

#[test]
fn more_fuel_changes_nothing_once_stopped() {
    let c = code(vec![], vec![ConstInt(2), ConstInt(3), IntBinOp(b'*'), Return]);
    let mut a = VmState::new(&c);
    let mut b = VmState::new(&c);
    assert_eq!(run(&mut a, &c, 4), Ok(Step::Done));
    assert_eq!(run(&mut b, &c, 400), Ok(Step::Done));
    assert_eq!(words(&a), words(&b));
    assert_eq!(a.ip, b.ip);
}

#[test]
fn single_steps() {
    let c = code(vec![], vec![ConstInt(4), Dup, IntBinOp(b'*'), Halt]);
    let mut vm = VmState::new(&c);
    assert_eq!(step(&mut vm, &c), Ok(Step::Continue));
    assert_eq!(step(&mut vm, &c), Ok(Step::Continue));
    assert_eq!(words(&vm), vec![4, 4]);
    assert_eq!(step(&mut vm, &c), Ok(Step::Continue));
    assert_eq!(step(&mut vm, &c), Ok(Step::Done));
    assert_eq!(words(&vm), vec![16]);
}

#[test]
fn error_in_a_handler_region_without_room_is_malformed() {
    // the handler was pushed with two values on the stack; the error leaves none
    let c = code(
        vec![],
        vec![ConstInt(1), ConstInt(0), PushOtherwise(2), IntBinOp(b'/'), Return, ConstInt(7), Return],
    );
    let mut vm = VmState::new(&c);
    assert_eq!(run(&mut vm, &c, FUEL), Err(RuntimeError::Malformed));
    assert!(vm.stack.is_empty());
}

fn array_program(index: i8) -> Code {
    sized(
        4,
        vec![],
        vec![
            ConstInt(10),
            ConstInt(20),
            ConstInt(30),
            MakeArray(3),
            ConstInt(index),
            ArrayGet,
            Return,
        ],
    )
}

#[test]
fn array_get_counts_negative_indices_from_the_end() {
    assert_eq!(eval(&array_program(-1)), 30);
    assert_eq!(eval(&array_program(-3)), 10);
    assert_eq!(eval(&array_program(1)), 20);
}

#[test]
fn array_get_out_of_bounds() {
    for (index, expected) in [(-4i8, -4i64), (3, 3)] {
        let c = array_program(index);
        let mut vm = VmState::new(&c);
        assert_eq!(
            run(&mut vm, &c, FUEL),
            Err(RuntimeError::IndexOutOfBounds { index: expected, len: 3 })
        );
        assert!(vm.stack.is_empty());
    }
}

#[test]
fn array_get_const() {
    let c = code(vec![], vec![ConstInt(7), ConstInt(8), MakeArray(2), ArrayGetConst(1), Return]);
    assert_eq!(eval(&c), 8);
    let c = code(vec![], vec![ConstInt(7), MakeArray(1), ArrayGetConst(1), Return]);
    let mut vm = VmState::new(&c);
    assert_eq!(run(&mut vm, &c, FUEL), Err(RuntimeError::IndexOutOfBounds { index: 1, len: 1 }));
}

#[test]
fn empty_array_index_fails() {
    let c = code(vec![], vec![MakeArray(0), ConstInt(0), ArrayGet, Return]);
    let mut vm = VmState::new(&c);
    assert_eq!(run(&mut vm, &c, FUEL), Err(RuntimeError::IndexOutOfBounds { index: 0, len: 0 }));
}

#[test]
fn records_hold_their_fields() {
    let c = code(vec![], vec![ConstInt(1), ConstInt(2), ConstInt(3), MakeRecord(3), RecordGet(2), Return]);
    assert_eq!(eval(&c), 3);
    let c = code(vec![], vec![ConstInt(1), MakeRecord(1), RecordGet(1), Return]);
    let mut vm = VmState::new(&c);
    assert_eq!(run(&mut vm, &c, FUEL), Err(RuntimeError::Malformed));
}

fn map_program(key: i8) -> Code {
    // {3: 30, 1: 10, 3: 31}[key]
    code(
        vec![],
        vec![
            ConstInt(3),
            ConstInt(30),
            ConstInt(1),
            ConstInt(10),
            ConstInt(3),
            ConstInt(31),
            MakeMap(3),
            ConstInt(key),
            MapGet,
            Return,
        ],
    )
}

#[test]
fn map_get_finds_the_first_entry_of_a_key() {
    assert_eq!(eval(&map_program(1)), 10);
    assert_eq!(eval(&map_program(3)), 30);
}

#[test]
fn map_get_missing_key() {
    let c = map_program(-5);
    let mut vm = VmState::new(&c);
    assert_eq!(
        run(&mut vm, &c, FUEL),
        Err(RuntimeError::KeyNotFound { key_display: String::from("-5") })
    );
}

#[test]
fn map_entries_are_ordered_by_key() {
    let c = map_program(1);
    let mut vm = VmState::new(&c);
    assert_eq!(run(&mut vm, &c, FUEL), Ok(Step::Done));
    assert_eq!(vm.heap.len(), 1);
    assert_eq!(vm.heap[0], Object::Dict(vec![(1, 10), (3, 30), (3, 31)]));
}

#[test]
fn otherwise_takes_an_index_error() {
    // [1][5] otherwise 9
    let c = code(
        vec![],
        vec![
            PushOtherwise(5),
            ConstInt(1),
            MakeArray(1),
            ConstInt(5),
            ArrayGet,
            PopOtherwiseAndJump(2),
            PopOtherwise,
            ConstInt(9),
            Return,
        ],
    );
    assert_eq!(eval(&c), 9);
}

#[test]
fn compound_words_on_a_plain_integer_are_malformed() {
    let c = code(vec![], vec![ConstInt(5), ConstInt(0), ArrayGet, Return]);
    let mut vm = VmState::new(&c);
    assert_eq!(run(&mut vm, &c, FUEL), Err(RuntimeError::Malformed));
}
