use std::cell::Cell;
use std::rc::Rc;

use wpilib::commands::Action;
use wpilib::commands::BoolSupplier;
use wpilib::commands::CommandBuilder;
use wpilib::commands::CommandTrait;
use wpilib::commands::EndAction;
use wpilib::manager::BoxedFn;
use wpilib::manager::CommandManager;
use wpilib::manager::Condition;
use wpilib::manager::ConditionResponse;
use wpilib::manager::ConditionalScheduler;
use wpilib::manager::Subsystem;
use wpilib::Command;

struct Noop;

impl Action for Noop {
    fn call(&mut self) {}
}

struct NoopEnd;

impl EndAction for NoopEnd {
    fn call(&mut self, _interrupted: bool) {}
}

struct ConstBool(bool);

impl BoolSupplier for ConstBool {
    fn call(&mut self) -> bool {
        self.0
    }
}

struct SetBool {
    cell: Rc<Cell<bool>>,
    value: bool,
}

impl Action for SetBool {
    fn call(&mut self) {
        self.cell.set(self.value);
    }
}

struct AddOne {
    cell: Rc<Cell<i32>>,
}

impl Action for AddOne {
    fn call(&mut self) {
        self.cell.set(self.cell.get() + 1);
    }
}

struct ActivateInit {
    calls: Rc<Cell<i32>>,
    motor: Rc<Cell<bool>>,
}

impl Action for ActivateInit {
    fn call(&mut self) {
        self.calls.set(self.calls.get() + 1);
        self.motor.set(true);
    }
}

struct ActivateEnd {
    calls: Rc<Cell<i32>>,
    motor: Rc<Cell<bool>>,
}

impl EndAction for ActivateEnd {
    fn call(&mut self, interrupted: bool) {
        if interrupted {
            self.calls.set(self.calls.get() - 1);
        }
        self.motor.set(false);
    }
}

struct CountingSubsystem {
    periodic_count: Rc<Cell<i32>>,
}

impl Subsystem for CountingSubsystem {
    fn periodic(&self) {
        self.periodic_count.set(self.periodic_count.get() + 1);
    }
}

/// The command a test subsystem runs while nothing owns it.
fn default_command(default_running: &Rc<Cell<bool>>) -> Command {
    CommandBuilder::new()
        .init(Box::new(Noop))
        .periodic(Box::new(SetBool { cell: default_running.clone(), value: true }))
        .is_finished(Box::new(ConstBool(false)))
        .end(Box::new(NoopEnd))
        .with_requirements(vec![1])
        .build()
        .with_name("Activate Motor")
}

/// An explicitly scheduled motor command: `init` increments a counter and
/// switches the motor on, `end(true)` undoes the count.
fn cmd_activate_motor(calls: &Rc<Cell<i32>>, motor: &Rc<Cell<bool>>) -> Command {
    CommandBuilder::new()
        .init(Box::new(ActivateInit { calls: calls.clone(), motor: motor.clone() }))
        .periodic(Box::new(Noop))
        .is_finished(Box::new(ConstBool(false)))
        .end(Box::new(ActivateEnd { calls: calls.clone(), motor: motor.clone() }))
        .with_requirements(vec![1])
        .build()
        .with_name("Activate Motor")
}

struct MotorFactory {
    calls: Rc<Cell<i32>>,
    motor: Rc<Cell<bool>>,
}

impl BoxedFn for MotorFactory {
    fn call(&self) -> Command {
        cmd_activate_motor(&self.calls, &self.motor)
    }
}

struct Immediately {}

impl Condition for Immediately {
    fn get_condition(&mut self) -> ConditionResponse {
        ConditionResponse::Start
    }
}

struct TestCommand {}

impl CommandTrait for TestCommand {}

fn run_test_command(manager: &mut CommandManager) {
    let command = TestCommand {};
    manager.schedule(Command::custom(Box::new(command)));
    manager.run();
}

fn run_test_subsystem(manager: &mut CommandManager, default_running: &Rc<Cell<bool>>) {
    let counter: Rc<Cell<i32>> = Rc::new(Cell::new(0));
    manager.register_subsystem(
        1,
        Box::new(CountingSubsystem { periodic_count: counter }),
        Some(default_command(default_running)),
    );
    assert!(!default_running.get());
    manager.run();
    assert!(default_running.get());
}

fn run_test_on_true(manager: &mut CommandManager) {
    let counter: Rc<Cell<i32>> = Rc::new(Cell::new(0));
    let calls: Rc<Cell<i32>> = Rc::new(Cell::new(0));
    let motor: Rc<Cell<bool>> = Rc::new(Cell::new(false));
    let default_running: Rc<Cell<bool>> = Rc::new(Cell::new(false));
    manager.register_subsystem(
        1,
        Box::new(CountingSubsystem { periodic_count: counter }),
        Some(default_command(&default_running)),
    );
    let mut scheduler = ConditionalScheduler::new();
    let cond = wpilib::on_true(Box::new(ConstBool(true)));
    scheduler.add_cond(
        Box::new(cond),
        Box::new(MotorFactory { calls: calls.clone(), motor: motor.clone() }),
    );
    assert!(!motor.get());
    assert_eq!(calls.get(), 0);
    manager.add_cond_scheduler(scheduler);
    manager.run();
    manager.run();
    manager.run();
    assert!(motor.get());
    assert_eq!(calls.get(), 1);
}

#[test]
fn parent_test() {
    let mut manager = CommandManager::new();
    run_test_command(&mut manager);
    let mut manager = CommandManager::new();
    let default_running: Rc<Cell<bool>> = Rc::new(Cell::new(false));
    run_test_subsystem(&mut manager, &default_running);
    let mut manager = CommandManager::new();
    run_test_on_true(&mut manager);
}

#[test]
fn test_command() {
    let mut manager = CommandManager::new();
    let command = TestCommand {};
    manager.schedule(Command::custom(Box::new(command)));
}

#[test]
fn test_subsystem() {
    let mut manager = CommandManager::new();
    let motor: Rc<Cell<bool>> = Rc::new(Cell::new(false));
    let calls: Rc<Cell<i32>> = Rc::new(Cell::new(0));
    let counter: Rc<Cell<i32>> = Rc::new(Cell::new(0));
    let default = cmd_activate_motor(&calls, &motor);
    manager.register_subsystem(
        0,
        Box::new(CountingSubsystem { periodic_count: counter }),
        Some(default),
    );
    manager.run();
    assert!(motor.get());
}

#[test]
fn test_conditional_scheduler() {
    let mut manager = CommandManager::new();
    let motor: Rc<Cell<bool>> = Rc::new(Cell::new(false));
    let calls: Rc<Cell<i32>> = Rc::new(Cell::new(0));
    let mut scheduler = ConditionalScheduler::new();
    scheduler.add_cond(
        Box::new(Immediately {}),
        Box::new(MotorFactory { calls: calls.clone(), motor: motor.clone() }),
    );
    manager.add_cond_scheduler(scheduler);
    manager.run();
    assert!(motor.get());
}

/// A scheduled command's `init` runs exactly once over many ticks, and the
/// command keeps its subsystem away from the default command.
#[test]
fn init_runs_once_across_ticks() {
    let mut manager = CommandManager::new();
    let counter: Rc<Cell<i32>> = Rc::new(Cell::new(0));
    let default_running: Rc<Cell<bool>> = Rc::new(Cell::new(false));
    let calls: Rc<Cell<i32>> = Rc::new(Cell::new(0));
    let motor: Rc<Cell<bool>> = Rc::new(Cell::new(false));
    manager.register_subsystem(
        1,
        Box::new(CountingSubsystem { periodic_count: counter }),
        Some(default_command(&default_running)),
    );
    manager.schedule(cmd_activate_motor(&calls, &motor));
    manager.run();
    manager.run();
    manager.run();
    assert_eq!(calls.get(), 1);
    assert!(!default_running.get());
}

/// A subsystem with no scheduled command is owned by its default command.
#[test]
fn default_fallback() {
    let mut manager = CommandManager::new();
    let counter: Rc<Cell<i32>> = Rc::new(Cell::new(0));
    let default_running: Rc<Cell<bool>> = Rc::new(Cell::new(false));
    manager.register_subsystem(
        1,
        Box::new(CountingSubsystem { periodic_count: counter.clone() }),
        Some(default_command(&default_running)),
    );
    manager.run();
    assert!(default_running.get());
    assert_eq!(counter.get(), 1);
}

struct FinishEnd {
    ended: Rc<Cell<i32>>,
    interrupted_seen: Rc<Cell<bool>>,
}

impl EndAction for FinishEnd {
    fn call(&mut self, interrupted: bool) {
        self.ended.set(self.ended.get() + 1);
        if interrupted {
            self.interrupted_seen.set(true);
        }
    }
}

/// A finished transient command is ended without interruption and its slot
/// is free for the very next `schedule` call.
#[test]
fn finish_and_free() {
    let mut manager = CommandManager::new();
    let ended: Rc<Cell<i32>> = Rc::new(Cell::new(0));
    let interrupted_seen: Rc<Cell<bool>> = Rc::new(Cell::new(false));
    let one_shot = CommandBuilder::run_end_until(
        Box::new(ConstBool(true)),
        Box::new(Noop),
        Box::new(FinishEnd { ended: ended.clone(), interrupted_seen: interrupted_seen.clone() }),
        vec![1],
    );
    manager.schedule(one_shot);
    manager.run();
    assert_eq!(ended.get(), 1);
    assert!(!interrupted_seen.get());
    let ticks: Rc<Cell<i32>> = Rc::new(Cell::new(0));
    let next = CommandBuilder::run_only(Box::new(AddOne { cell: ticks.clone() }), vec![1]);
    manager.schedule(next);
    manager.run();
    assert_eq!(ticks.get(), 1);
    assert_eq!(ended.get(), 1);
}

/// An orphaned command (empty requirements) runs every tick, whatever
/// happens to subsystem ownership.
#[test]
fn orphan_independence() {
    let mut manager = CommandManager::new();
    let counter: Rc<Cell<i32>> = Rc::new(Cell::new(0));
    let default_running: Rc<Cell<bool>> = Rc::new(Cell::new(false));
    let calls: Rc<Cell<i32>> = Rc::new(Cell::new(0));
    let motor: Rc<Cell<bool>> = Rc::new(Cell::new(false));
    let sub_counter: Rc<Cell<i32>> = Rc::new(Cell::new(0));
    manager.register_subsystem(
        1,
        Box::new(CountingSubsystem { periodic_count: sub_counter }),
        Some(default_command(&default_running)),
    );
    let orphan = CommandBuilder::run_only(Box::new(AddOne { cell: counter.clone() }), vec![]);
    manager.schedule(orphan);
    manager.run();
    manager.schedule(cmd_activate_motor(&calls, &motor));
    manager.run();
    manager.run();
    assert_eq!(counter.get(), 3);
}

/// `cancel_all` fires `end(true)` on the owning command, and the subsystem
/// reverts to its default command on the next tick.
#[test]
fn cancel_all_reverts_to_default() {
    let mut manager = CommandManager::new();
    let sub_counter: Rc<Cell<i32>> = Rc::new(Cell::new(0));
    let default_running: Rc<Cell<bool>> = Rc::new(Cell::new(false));
    let calls: Rc<Cell<i32>> = Rc::new(Cell::new(0));
    let motor: Rc<Cell<bool>> = Rc::new(Cell::new(false));
    manager.register_subsystem(
        1,
        Box::new(CountingSubsystem { periodic_count: sub_counter }),
        Some(default_command(&default_running)),
    );
    manager.schedule(cmd_activate_motor(&calls, &motor));
    manager.run();
    assert!(motor.get());
    assert!(!default_running.get());
    manager.cancel_all();
    assert!(!motor.get());
    assert_eq!(calls.get(), 0);
    manager.run();
    assert!(default_running.get());
}

/// Two commands requiring the same subsystem: the later `schedule` wins
/// ownership and only it runs.
#[test]
fn last_scheduled_owns() {
    let mut manager = CommandManager::new();
    let first_ticks: Rc<Cell<i32>> = Rc::new(Cell::new(0));
    let second_ticks: Rc<Cell<i32>> = Rc::new(Cell::new(0));
    let first = CommandBuilder::run_only(Box::new(AddOne { cell: first_ticks.clone() }), vec![1]);
    let second = CommandBuilder::run_only(Box::new(AddOne { cell: second_ticks.clone() }), vec![1]);
    manager.schedule(first);
    manager.schedule(second);
    manager.run();
    assert_eq!(first_ticks.get(), 0);
    assert_eq!(second_ticks.get(), 1);
}

/// The builder wires every hook: `init` and `periodic` run on the first
/// tick of an owning command.
#[test]
fn builder_hooks_run() {
    let mut manager = CommandManager::new();
    let inits: Rc<Cell<i32>> = Rc::new(Cell::new(0));
    let periodics: Rc<Cell<i32>> = Rc::new(Cell::new(0));
    let cmd = CommandBuilder::run_start(
        Box::new(AddOne { cell: inits.clone() }),
        Box::new(AddOne { cell: periodics.clone() }),
        vec![3],
    );
    manager.schedule(cmd);
    manager.run();
    manager.run();
    assert_eq!(inits.get(), 1);
    assert_eq!(periodics.get(), 2);
}

/// The suid counter hands out consecutive ids.
#[test]
fn suid_counter_increments() {
    let mut manager = CommandManager::new();
    assert_eq!(manager.get_suid(), 0);
    assert_eq!(manager.get_suid(), 1);
    assert_eq!(manager.get_suid(), 2);
}

/// A command requiring a subsystem nobody registered still runs, finishes
/// and is reclaimed; the subsystem is simply left ownerless.
#[test]
fn finish_without_registered_default() {
    let mut manager = CommandManager::new();
    let ticks: Rc<Cell<i32>> = Rc::new(Cell::new(0));
    let cmd = CommandBuilder::run_until(
        Box::new(ConstBool(true)),
        Box::new(AddOne { cell: ticks.clone() }),
        vec![9],
    );
    manager.schedule(cmd);
    manager.run();
    manager.run();
    assert_eq!(ticks.get(), 1);
}
