use mana::vm::emitter::Emitter;
use mana::vm::env::Env;
use mana::vm::function::Functions;
use mana::vm::instructions::Inst;
use mana::vm::value::{FunctionRef, MetaValue, Table};
use mana::vm::{operation_not_defined, RuntimeError, VM};

#[test]
fn test_factorial() {
    let mut e = Emitter::new();

    let n = e.local_new();
    let total = e.local_new();

    let e = e.local_store(n).push_int(1).local_store(total);
    let e = e.while_loop(
        |e| e.local_load(n).push_int(1).greater_than(),
        |e| {
            e.local_load(n)
                .dup()
                .local_load(total)
                .mul()
                .local_store(total)
                .push_int(1)
                .sub()
                .local_store(n)
        },
    );
    let e = e.local_load(total);

    let factorial = e.finish().unwrap();
    let mut functions = Functions::new();
    functions.insert("factorial".into(), factorial);

    let mut vm = VM::new(functions);

    vm.push(MetaValue::integer(5));
    vm.run("factorial").unwrap();

    assert_eq!(vm.pop(), Ok(MetaValue::integer(120)));
}

#[test]
fn test_closure() {
    let add_n_closure = {
        let e = Emitter::with_env(1);
        e.local_load(0).add().finish().unwrap()
    };
    let add_n = {
        let e = Emitter::new();
        e.push_list()
            .swap()
            .list_push()
            .push_function_ref("add_n_closure")
            .swap()
            .bind()
            .finish()
            .unwrap()
    };
    let main_fn = {
        let e = Emitter::new();
        e.push_int(1)
            .push_int(2)
            .push_function_ref("add_n")
            .call()
            .call()
            .finish()
            .unwrap()
    };

    let mut functions = Functions::new();
    functions.insert("add_n_closure".into(), add_n_closure);
    functions.insert("add_n".into(), add_n);
    functions.insert("main".into(), main_fn);

    let mut vm = VM::new(functions);

    vm.run("main").unwrap();

    assert_eq!(vm.pop(), Ok(MetaValue::integer(3)));
}

#[test]
fn test_functions() {
    let inc = {
        let e = Emitter::new();
        e.push_int(1).add().finish().unwrap()
    };
    let list_inc = {
        let e = Emitter::new();
        e.push_function_ref("inc")
            .push_function_ref("List.map")
            .call()
            .finish()
            .unwrap()
    };

    let list_map = {
        let mut e = Emitter::new();

        let f = e.local_new();
        let l = e.local_new();
        let length = e.local_new();
        let i = e.local_new();

        // Init
        let e = e
            .local_store(f)
            .dup()
            .local_store(l)
            .list_len()
            .local_store(length)
            .push_int(0)
            .local_store(i);

        // Loop
        let e = e.while_loop(
            |e| e.local_load(i).local_load(length).less_than(),
            |e| {
                let e = e.local_load(l).local_load(i).list_get();
                let e = e.local_load(f).call();
                let e = e
                    .local_load(l)
                    .swap()
                    .local_load(i)
                    .swap()
                    .list_set()
                    .local_store(l);
                e.local_load(i).push_int(1).add().local_store(i)
            },
        );
        e.local_load(l).finish().unwrap()
    };

    let mut functions = Functions::new();
    functions.insert("inc".into(), inc);
    functions.insert("List.map".into(), list_map);
    functions.insert("List.inc".into(), list_inc);

    let mut vm = VM::new(functions);

    vm.push(MetaValue::list(vec![
        MetaValue::integer(5),
        MetaValue::integer(6),
    ]));
    vm.run("List.inc").unwrap();

    let res = vm.pop();
    let expected = Ok(MetaValue::list(vec![
        MetaValue::integer(6),
        MetaValue::integer(7),
    ]));

    assert_eq!(res, expected);
}

fn run_program(insts: Vec<Inst>, seed: Vec<MetaValue>) -> (Result<(), RuntimeError>, VM) {
    let mut e = Emitter::new();
    for inst in insts {
        e.emit(inst);
    }
    let mut functions = Functions::new();
    functions.insert("main".into(), e.finish().unwrap());
    let mut vm = VM::new(functions);
    for v in seed {
        vm.push(v);
    }
    let r = vm.run("main");
    (r, vm)
}

#[test]
fn test_add_with_bool_is_not_defined() {
    let (r, _) = run_program(vec![Inst::PushI(1), Inst::PushB(true), Inst::Add], vec![]);
    assert_eq!(
        r,
        Err(RuntimeError::OperationNotDefined(
            "+".to_string(),
            "Bool".to_string()
        ))
    );
}

#[test]
fn test_get_from_empty_list_is_range_error() {
    let (r, _) = run_program(vec![Inst::PushList, Inst::PushI(0), Inst::ListGet], vec![]);
    assert_eq!(r, Err(RuntimeError::RangeError(0, 0, 0)));
}

#[test]
fn test_closures_with_different_environments_are_not_equal() {
    let f1 = MetaValue::function_ref(FunctionRef {
        name: "f".into(),
        env: Env::new(vec![Some(MetaValue::integer(1))]),
    });
    let f2 = MetaValue::function_ref(FunctionRef {
        name: "f".into(),
        env: Env::new(vec![Some(MetaValue::integer(2))]),
    });
    let (r, mut vm) = run_program(vec![Inst::Equal], vec![f1, f2]);
    r.unwrap();
    assert_eq!(vm.pop(), Ok(MetaValue::bool(false)));
}

#[test]
fn test_closures_with_equal_environments_are_equal() {
    let f1 = MetaValue::function_ref(FunctionRef {
        name: "f".into(),
        env: Env::new(vec![Some(MetaValue::integer(1))]),
    });
    let f2 = MetaValue::function_ref(FunctionRef {
        name: "f".into(),
        env: Env::new(vec![Some(MetaValue::integer(1))]),
    });
    let (r, mut vm) = run_program(vec![Inst::Equal], vec![f1, f2]);
    r.unwrap();
    assert_eq!(vm.pop(), Ok(MetaValue::bool(true)));
}

#[test]
fn test_integer_add_wraps_around() {
    let (r, mut vm) = run_program(
        vec![Inst::PushI(i64::MAX), Inst::PushI(1), Inst::Add],
        vec![],
    );
    r.unwrap();
    assert_eq!(vm.pop(), Ok(MetaValue::integer(i64::MIN)));
}

#[test]
fn test_integer_mul_wraps_around() {
    let (r, mut vm) = run_program(
        vec![Inst::PushI(i64::MAX), Inst::PushI(2), Inst::Mul],
        vec![],
    );
    r.unwrap();
    assert_eq!(vm.pop(), Ok(MetaValue::integer(-2)));
}

#[test]
fn test_division_truncates_toward_zero() {
    let (r, mut vm) = run_program(vec![Inst::PushI(-7), Inst::PushI(2), Inst::Div], vec![]);
    r.unwrap();
    assert_eq!(vm.pop(), Ok(MetaValue::integer(-3)));
}

#[test]
fn test_division_by_zero_fails() {
    let (r, _) = run_program(vec![Inst::PushI(7), Inst::PushI(0), Inst::Div], vec![]);
    assert_eq!(r, Err(RuntimeError::DivideByZero));
}

#[test]
fn test_remainder_by_zero_fails() {
    let (r, _) = run_program(vec![Inst::PushI(7), Inst::PushI(0), Inst::Mod], vec![]);
    assert_eq!(r, Err(RuntimeError::DivideByZero));
}

#[test]
fn test_remainder_follows_dividend_sign() {
    let (r, mut vm) = run_program(vec![Inst::PushI(-7), Inst::PushI(2), Inst::Mod], vec![]);
    r.unwrap();
    assert_eq!(vm.pop(), Ok(MetaValue::integer(-1)));
}

#[test]
fn test_swap_twice_is_identity() {
    let (r, mut vm) = run_program(
        vec![Inst::Swap, Inst::Swap],
        vec![MetaValue::integer(1), MetaValue::integer(2)],
    );
    r.unwrap();
    assert_eq!(vm.pop(), Ok(MetaValue::integer(2)));
    assert_eq!(vm.pop(), Ok(MetaValue::integer(1)));
}

#[test]
fn test_dup_then_drop_is_identity() {
    let (r, mut vm) = run_program(vec![Inst::Dup, Inst::Drop], vec![MetaValue::integer(9)]);
    r.unwrap();
    assert_eq!(vm.pop(), Ok(MetaValue::integer(9)));
    assert_eq!(vm.pop(), Err(RuntimeError::EmptyStack));
}

#[test]
fn test_dup_then_equal_is_true() {
    let (r, mut vm) = run_program(
        vec![Inst::Dup, Inst::Equal],
        vec![MetaValue::list(vec![MetaValue::bool(true)])],
    );
    r.unwrap();
    assert_eq!(vm.pop(), Ok(MetaValue::bool(true)));
}

#[test]
fn test_list_push_then_pop_restores_list_and_element() {
    let (r, mut vm) = run_program(
        vec![Inst::ListPush, Inst::ListPop],
        vec![
            MetaValue::list(vec![MetaValue::integer(1)]),
            MetaValue::integer(2),
        ],
    );
    r.unwrap();
    assert_eq!(vm.pop(), Ok(MetaValue::integer(2)));
    assert_eq!(vm.pop(), Ok(MetaValue::list(vec![MetaValue::integer(1)])));
}

#[test]
fn test_list_len_counts_pushed_elements() {
    let (r, mut vm) = run_program(
        vec![
            Inst::PushList,
            Inst::PushI(10),
            Inst::ListPush,
            Inst::PushI(11),
            Inst::ListPush,
            Inst::PushI(12),
            Inst::ListPush,
            Inst::ListLen,
        ],
        vec![],
    );
    r.unwrap();
    assert_eq!(vm.pop(), Ok(MetaValue::integer(3)));
}

#[test]
fn test_pop_from_empty_list_fails() {
    let (r, _) = run_program(vec![Inst::PushList, Inst::ListPop], vec![]);
    assert_eq!(r, Err(RuntimeError::EmptyList));
}

#[test]
fn test_branch_if_requires_a_bool() {
    let (r, _) = run_program(vec![Inst::PushI(1), Inst::BranchIf(0)], vec![]);
    assert_eq!(r, Err(RuntimeError::TypeError("Int".to_string())));
}

#[test]
fn test_call_of_missing_function_fails() {
    let (r, _) = run_program(vec![Inst::PushFn("ghostly".into()), Inst::Call], vec![]);
    assert_eq!(r, Err(RuntimeError::FunctionNotFound("ghostly".to_string())));
}

#[test]
fn test_local_load_of_unset_slot_fails() {
    let mut e = Emitter::new();
    let slot = e.local_new();
    let e = e.local_load(slot);
    let mut functions = Functions::new();
    functions.insert("main".into(), e.finish().unwrap());
    let mut vm = VM::new(functions);
    assert_eq!(vm.run("main"), Err(RuntimeError::LocalNotInitialized));
}

#[test]
fn test_local_store_out_of_range_fails() {
    let (r, _) = run_program(vec![Inst::PushI(1), Inst::LocalStore(4)], vec![]);
    assert_eq!(r, Err(RuntimeError::LocalNotFound));
}

#[test]
fn test_pop_on_empty_stack_fails() {
    let (r, _) = run_program(vec![Inst::Drop], vec![]);
    assert_eq!(r, Err(RuntimeError::EmptyStack));
}

#[test]
fn test_table_get_and_len() {
    let (r, mut vm) = run_program(
        vec![
            Inst::PushTable,
            Inst::PushI(1),
            Inst::PushB(true),
            Inst::TableSet,
            Inst::PushI(1),
            Inst::TableGet,
        ],
        vec![],
    );
    r.unwrap();
    assert_eq!(vm.pop(), Ok(MetaValue::bool(true)));
}

#[test]
fn test_table_get_missing_key_fails() {
    let (r, _) = run_program(
        vec![Inst::PushTable, Inst::PushI(5), Inst::TableGet],
        vec![],
    );
    assert_eq!(r, Err(RuntimeError::KeyNotFound(MetaValue::integer(5))));
}

#[test]
fn test_table_keys_lists_keys_in_insertion_order() {
    let (r, mut vm) = run_program(
        vec![
            Inst::PushTable,
            Inst::PushI(2),
            Inst::PushB(true),
            Inst::TableSet,
            Inst::PushI(1),
            Inst::PushB(false),
            Inst::TableSet,
            Inst::TableKeys,
        ],
        vec![],
    );
    r.unwrap();
    assert_eq!(
        vm.pop(),
        Ok(MetaValue::list(vec![
            MetaValue::integer(2),
            MetaValue::integer(1)
        ]))
    );
}

#[test]
fn test_meta_table_distinguishes_values() {
    // Attach a non-empty meta-table to one of two otherwise equal
    // integers: they are no longer Equal.
    let (r, mut vm) = run_program(
        vec![
            Inst::PushI(1),
            Inst::PushTable,
            Inst::PushB(true),
            Inst::PushB(true),
            Inst::TableSet,
            Inst::StoreMeta,
            Inst::PushI(1),
            Inst::Equal,
        ],
        vec![],
    );
    r.unwrap();
    assert_eq!(vm.pop(), Ok(MetaValue::bool(false)));
}

#[test]
fn test_load_meta_reads_back_stored_meta() {
    let (r, mut vm) = run_program(
        vec![
            Inst::PushI(1),
            Inst::PushTable,
            Inst::StoreMeta,
            Inst::LoadMeta,
        ],
        vec![],
    );
    r.unwrap();
    assert_eq!(vm.pop(), Ok(MetaValue::table(Table::new())));
}

#[test]
fn test_into_int_converts_bool_and_list() {
    let (r, mut vm) = run_program(
        vec![
            Inst::PushB(true),
            Inst::IntoInt,
            Inst::PushList,
            Inst::PushI(7),
            Inst::ListPush,
            Inst::IntoInt,
        ],
        vec![],
    );
    r.unwrap();
    assert_eq!(vm.pop(), Ok(MetaValue::integer(1)));
    assert_eq!(vm.pop(), Ok(MetaValue::integer(1)));
}

#[test]
fn test_into_int_of_function_ref_is_not_defined() {
    let (r, _) = run_program(vec![Inst::PushFn("f".into()), Inst::IntoInt], vec![]);
    assert_eq!(
        r,
        Err(RuntimeError::OperationNotDefined(
            "into_int".to_string(),
            "FunctionRef".to_string()
        ))
    );
}

#[test]
fn test_return_stops_the_function_early() {
    let (r, mut vm) = run_program(
        vec![Inst::PushI(1), Inst::Return, Inst::PushI(2)],
        vec![],
    );
    r.unwrap();
    assert_eq!(vm.pop(), Ok(MetaValue::integer(1)));
    assert_eq!(vm.pop(), Err(RuntimeError::EmptyStack));
}

#[test]
fn test_budget_runs_out_on_endless_loop() {
    let e = Emitter::new().infinite_loop(|e| e.nop());
    let mut functions = Functions::new();
    functions.insert("spin".into(), e.finish().unwrap());
    let mut vm = VM::new(functions);
    assert_eq!(
        vm.run_with_budget("spin", 1000),
        Err(RuntimeError::BudgetExhausted)
    );
}

#[test]
fn test_operation_not_defined_builds_the_error() {
    assert_eq!(
        operation_not_defined("+", "Bool"),
        Err(RuntimeError::OperationNotDefined(
            "+".to_string(),
            "Bool".to_string()
        ))
    );
}
