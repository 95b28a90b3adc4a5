//! The interpreter's lifecycle. At most one interpreter runs in a process at
//! a time: building or re-initializing one while another is running is
//! refused, and deinitializing hands the configuration back so that it can
//! be started again.
//!
//! The C calls that start and stop the interpreter belong to the embedding:
//! after a successful `build` or `reinit` it performs `startup_steps` in
//! order, and it performs the steps that `deinit` or `shutdown` hand back.
//! Both consume the `Vm`, so each running interpreter is stopped once.
//!
//! A `Vm` that is dropped without `deinit` or `shutdown` leaves the runtime
//! marked active, and every later start is then refused. The embedding's
//! handle on a running interpreter therefore calls `shutdown` when it is
//! dropped.
//!
//! The runtime stands for a flag that the whole process shares. The library
//! holds no process-wide state, so nothing here stops a second `Runtime`
//! from being made: the embedding makes exactly one, kept where every
//! interpreter handle reaches it, and passes it to every call here.

use vstd::prelude::*;

verus! {

/// Whether an interpreter is running in this process. The embedding makes
/// one value of it, once, for the whole process.
pub struct Runtime {
    active: bool,
}

impl Runtime {
    pub closed spec fn is_active(&self) -> bool {
        self.active
    }

    /// The flag of a process in which no interpreter has been started; the
    /// embedding calls this once.
    pub fn new() -> (r: Runtime)
        ensures
            !r.is_active(),
    {
        Runtime { active: false }
    }

    /// Marks an interpreter as running, unless one already is.
    fn try_activate(&mut self) -> (r: Result<(), InitError>)
        ensures
            old(self).is_active() ==> r == Err::<(), InitError>(InitError::CurrentlyInitialized)
                && final(self).is_active(),
            !old(self).is_active() ==> r is Ok && final(self).is_active(),
    {
        if self.active {
            return Err(InitError::CurrentlyInitialized);
        }
        self.active = true;
        Ok(())
    }

    fn deactivate(&mut self)
        ensures
            !final(self).is_active(),
    {
        self.active = false;
    }
}

/// Whether an interpreter is running.
pub fn active(runtime: &Runtime) -> (b: bool)
    ensures
        b == runtime.is_active(),
{
    runtime.active
}

/// The interpreter could not be started.
#[derive(Debug, Clone, Copy, PartialEq, Eq, Structural)]
pub enum InitError {
    /// Another interpreter is running; it has to be deinitialized first.
    CurrentlyInitialized,
}

impl InitError {
    pub fn message(&self) -> (s: &'static str)
        ensures
            s@ == "vm currently initialized, cannot initialize again before deinit"@,
    {
        "vm currently initialized, cannot initialize again before deinit"
    }
}

/// What an interpreter is started with: the memory the garbage collector
/// manages, if it is given one.
pub struct VmData<H> {
    pub heap: Option<H>,
}

impl<H> Default for VmData<H> {
    fn default() -> (d: Self)
        ensures
            d.heap is None,
    {
        VmData { heap: None }
    }
}

/// One of the calls that start an interpreter, in the order they are made.
#[derive(Debug, Clone, Copy, PartialEq, Eq, Structural)]
pub enum StartupStep {
    /// Hand the heap to the garbage collector.
    InitCollector,
    /// Initialize the interpreter itself.
    InitInterpreter,
}

/// The calls that start an interpreter with `data`: the collector first
/// when there is a heap, then the interpreter.
pub open spec fn startup_plan<H>(data: VmData<H>) -> Seq<StartupStep> {
    if data.heap is Some {
        seq![StartupStep::InitCollector, StartupStep::InitInterpreter]
    } else {
        seq![StartupStep::InitInterpreter]
    }
}

/// One of the calls that stop an interpreter.
#[derive(Debug, Clone, Copy, PartialEq, Eq, Structural)]
pub enum ShutdownStep {
    /// Deinitialize the interpreter.
    DeinitInterpreter,
}

/// The calls that stop an interpreter: its deinitialization, once.
pub open spec fn shutdown_plan() -> Seq<ShutdownStep> {
    seq![ShutdownStep::DeinitInterpreter]
}

fn shutdown_steps() -> (steps: Vec<ShutdownStep>)
    ensures
        steps@ == shutdown_plan(),
{
    let mut steps: Vec<ShutdownStep> = Vec::new();
    steps.push(ShutdownStep::DeinitInterpreter);
    steps
}

pub struct VmBuilder<H> {
    data: VmData<H>,
}

impl<H> Default for VmBuilder<H> {
    fn default() -> (b: Self)
        ensures
            b.data_view().heap is None,
    {
        VmBuilder { data: VmData::default() }
    }
}

impl<H> VmBuilder<H> {
    pub closed spec fn data_view(&self) -> VmData<H> {
        self.data
    }

    /// Gives the interpreter `heap` for its garbage collector.
    pub fn heap(self, heap: H) -> (b: Self)
        ensures
            b.data_view().heap == Some(heap),
    {
        let mut b = self;
        b.data.heap = Some(heap);
        b
    }

    /// Starts an interpreter, unless one is already running; on refusal the
    /// configuration is dropped.
    pub fn build(self, runtime: &mut Runtime) -> (r: Result<Vm<H>, InitError>)
        ensures
            r is Ok == init_succeeds(old(runtime).is_active()),
            final(runtime).is_active(),
            r matches Err(e) ==> e == InitError::CurrentlyInitialized,
            r matches Ok(vm) ==> vm.data_view() == self.data_view(),
    {
        let mut inner = VmInner { data: self.data, micropython: MicroPython { _private: () } };
        match inner.init(runtime) {
            Ok(()) => Ok(Vm { inner }),
            Err(e) => Err(e),
        }
    }
}

/// A handle on the running interpreter, proof that calls into it may be made.
pub struct MicroPython {
    _private: (),
}

struct VmInner<H> {
    data: VmData<H>,
    micropython: MicroPython,
}

impl<H> VmInner<H> {
    fn init(&mut self, runtime: &mut Runtime) -> (r: Result<(), InitError>)
        ensures
            final(self).data == old(self).data,
            old(runtime).is_active() ==> r == Err::<(), InitError>(InitError::CurrentlyInitialized)
                && final(runtime).is_active(),
            !old(runtime).is_active() ==> r is Ok && final(runtime).is_active(),
    {
        runtime.try_activate()
    }

    fn deinit(&mut self, runtime: &mut Runtime)
        ensures
            final(self).data == old(self).data,
            !final(runtime).is_active(),
    {
        runtime.deactivate();
    }
}

/// A running interpreter.
pub struct Vm<H> {
    inner: VmInner<H>,
}

impl<H> Vm<H> {
    pub closed spec fn data_view(&self) -> VmData<H> {
        self.inner.data
    }

    /// A builder with no heap.
    pub fn builder() -> (b: VmBuilder<H>)
        ensures
            b.data_view().heap is None,
    {
        VmBuilder::default()
    }

    /// The calls the embedding makes, in order, to start this interpreter.
    pub fn startup_steps(&self) -> (steps: Vec<StartupStep>)
        ensures
            steps@ == startup_plan(self.data_view()),
    {
        let mut steps: Vec<StartupStep> = Vec::new();
        if self.inner.data.heap.is_some() {
            steps.push(StartupStep::InitCollector);
        }
        steps.push(StartupStep::InitInterpreter);
        steps
    }

    /// The handle on this interpreter; the interpreter's configuration stays
    /// as it is.
    pub fn micropython(&mut self) -> (m: &mut MicroPython)
        ensures
            final(self).data_view() == old(self).data_view(),
    {
        &mut self.inner.micropython
    }

    /// Stops the interpreter and keeps its configuration for a later start:
    /// the runtime is no longer active, and the calls that stop the
    /// interpreter are handed back for the embedding to make.
    pub fn deinit(self, runtime: &mut Runtime) -> (r: (Deinitialized<H>, Vec<ShutdownStep>))
        ensures
            !final(runtime).is_active(),
            r.0.data_view() == self.data_view(),
            r.1@ == shutdown_plan(),
    {
        let mut inner = self.inner;
        inner.deinit(runtime);
        (Deinitialized { inner }, shutdown_steps())
    }

    /// Stops the interpreter for good, its configuration dropped: the runtime
    /// is no longer active, and the calls that stop the interpreter are
    /// handed back for the embedding to make. The embedding's handle calls
    /// this when it is dropped.
    pub fn shutdown(self, runtime: &mut Runtime) -> (steps: Vec<ShutdownStep>)
        ensures
            !final(runtime).is_active(),
            steps@ == shutdown_plan(),
    {
        let mut inner = self.inner;
        inner.deinit(runtime);
        shutdown_steps()
    }
}

/// A stopped interpreter's configuration.
pub struct Deinitialized<H> {
    inner: VmInner<H>,
}

impl<H> Deinitialized<H> {
    pub closed spec fn data_view(&self) -> VmData<H> {
        self.inner.data
    }

    /// Starts the interpreter again, unless another one is running; on
    /// refusal the configuration is dropped.
    pub fn reinit(self, runtime: &mut Runtime) -> (r: Result<Vm<H>, InitError>)
        ensures
            r is Ok == init_succeeds(old(runtime).is_active()),
            final(runtime).is_active(),
            r matches Err(e) ==> e == InitError::CurrentlyInitialized,
            r matches Ok(vm) ==> vm.data_view() == self.data_view(),
    {
        let mut inner = self.inner;
        match inner.init(runtime) {
            Ok(()) => Ok(Vm { inner }),
            Err(e) => Err(e),
        }
    }

    pub fn into_data(self) -> (d: VmData<H>)
        ensures
            d == self.data_view(),
    {
        self.inner.data
    }
}

/// Whether starting an interpreter succeeds, given whether one is running.
pub open spec fn init_succeeds(active: bool) -> bool {
    !active
}

/// One interpreter at a time: while a runtime is active (after any start
/// attempt, whatever its outcome) a start is refused; once it is inactive
/// (before the first start, or after `deinit` or `shutdown`) a start
/// succeeds.
pub proof fn lemma_one_interpreter_at_a_time(running: Runtime, stopped: Runtime)
    requires
        running.is_active(),
        !stopped.is_active(),
    ensures
        !init_succeeds(running.is_active()),
        init_succeeds(stopped.is_active()),
{
}

} // verus!
