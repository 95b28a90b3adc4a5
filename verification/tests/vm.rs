use micropython_build::vm::{active, InitError, Runtime, ShutdownStep, StartupStep, Vm, VmData};

#[test]
fn second_vm_is_refused_until_deinit() {
    let mut runtime = Runtime::new();
    assert!(!active(&runtime));
    let vm = Vm::<Vec<u8>>::builder().heap(vec![0u8; 64]).build(&mut runtime).unwrap();
    assert!(active(&runtime));
    assert_eq!(vm.startup_steps(), vec![StartupStep::InitCollector, StartupStep::InitInterpreter]);
    let second = Vm::<Vec<u8>>::builder().build(&mut runtime);
    assert!(matches!(second, Err(InitError::CurrentlyInitialized)));
    assert!(active(&runtime));
    let (stopped, steps) = vm.deinit(&mut runtime);
    assert_eq!(steps, vec![ShutdownStep::DeinitInterpreter]);
    assert!(!active(&runtime));
    let vm = stopped.reinit(&mut runtime).unwrap();
    assert!(active(&runtime));
    let data: VmData<Vec<u8>> = vm.deinit(&mut runtime).0.into_data();
    assert_eq!(data.heap.map(|h| h.len()), Some(64));
    assert!(!active(&runtime));
}

#[test]
fn reinit_is_refused_while_another_vm_runs() {
    let mut runtime = Runtime::new();
    let first = Vm::<()>::builder().build(&mut runtime).unwrap();
    let (stopped, _) = first.deinit(&mut runtime);
    let other = Vm::<()>::builder().build(&mut runtime).unwrap();
    assert_eq!(other.startup_steps(), vec![StartupStep::InitInterpreter]);
    assert!(matches!(stopped.reinit(&mut runtime), Err(InitError::CurrentlyInitialized)));
    assert_eq!(
        InitError::CurrentlyInitialized.message(),
        "vm currently initialized, cannot initialize again before deinit"
    );
}

#[test]
fn builder_without_heap_has_no_heap() {
    let mut runtime = Runtime::new();
    let vm = Vm::<u32>::builder().build(&mut runtime).unwrap();
    assert!(vm.deinit(&mut runtime).0.into_data().heap.is_none());
}

#[test]
fn shutdown_lets_the_next_interpreter_start() {
    let mut runtime = Runtime::new();
    let vm = Vm::<()>::builder().build(&mut runtime).unwrap();
    assert_eq!(vm.shutdown(&mut runtime), vec![ShutdownStep::DeinitInterpreter]);
    assert!(!active(&runtime));
    let next = Vm::<()>::builder().build(&mut runtime);
    assert!(next.is_ok());
    assert!(active(&runtime));
}

#[test]
fn a_refused_start_leaves_the_runtime_active() {
    let mut runtime = Runtime::new();
    let running = Vm::<u8>::builder().build(&mut runtime).unwrap();
    assert!(Vm::<u8>::builder().heap(1).build(&mut runtime).is_err());
    assert!(active(&runtime));
    running.shutdown(&mut runtime);
    assert!(!active(&runtime));
}
