use std::cell::Cell;
use std::rc::Rc;

use wpilib::commands::Action;
use wpilib::commands::BoolSupplier;
use wpilib::commands::CommandBuilder;
use wpilib::commands::CommandSupplier;
use wpilib::commands::CommandTrait;
use wpilib::commands::SuppliedCommand;
use wpilib::manager::CommandManager;
use wpilib::robots::HardwareType;
use wpilib::robots::RobotMode;
use wpilib::Command;
use wpilib::EventTypes;

struct Noop;

impl Action for Noop {
    fn call(&mut self) {}
}

struct ConstBool(bool);

impl BoolSupplier for ConstBool {
    fn call(&mut self) -> bool {
        self.0
    }
}

struct ReadCell(Rc<Cell<bool>>);

impl BoolSupplier for ReadCell {
    fn call(&mut self) -> bool {
        self.0.get()
    }
}

struct AddOne {
    cell: Rc<Cell<i32>>,
}

impl Action for AddOne {
    fn call(&mut self) {
        self.cell.set(self.cell.get() + 1);
    }
}

fn ticking(cell: &Rc<Cell<i32>>, reqs: Vec<u8>) -> Command {
    CommandBuilder::run_only(Box::new(AddOne { cell: cell.clone() }), reqs)
}

fn one_shot(cell: &Rc<Cell<i32>>, reqs: Vec<u8>) -> Command {
    CommandBuilder::run_until(
        Box::new(ConstBool(true)),
        Box::new(AddOne { cell: cell.clone() }),
        reqs,
    )
}

/// Both children of a parallel group advance within one tick, and their
/// requirement lists are merged without duplicates.
#[test]
fn along_with_runs_both() {
    let mut manager = CommandManager::new();
    let a: Rc<Cell<i32>> = Rc::new(Cell::new(0));
    let b: Rc<Cell<i32>> = Rc::new(Cell::new(0));
    let group = ticking(&a, vec![1, 2]).along_with(ticking(&b, vec![2, 3]));
    assert_eq!(group.get_requirements(), vec![1, 2, 3]);
    assert_eq!(group.get_name(), "unnamed command,unnamed command".to_string());
    manager.schedule(group);
    manager.run();
    manager.run();
    assert_eq!(a.get(), 2);
    assert_eq!(b.get(), 2);
}

/// A racing group finishes as soon as one child does; the group itself is
/// then ended and freed.
#[test]
fn race_with_finishes_on_first() {
    let mut manager = CommandManager::new();
    let quick: Rc<Cell<i32>> = Rc::new(Cell::new(0));
    let slow: Rc<Cell<i32>> = Rc::new(Cell::new(0));
    let group = one_shot(&quick, vec![1]).race_with(ticking(&slow, vec![2]));
    manager.schedule(group);
    manager.run();
    assert_eq!(quick.get(), 1);
    assert_eq!(slow.get(), 1);
    manager.run();
    assert_eq!(quick.get(), 1);
    assert_eq!(slow.get(), 1);
}

/// `before` runs this command to completion, then the other; `after` swaps
/// the order.
#[test]
fn before_and_after_order() {
    let mut manager = CommandManager::new();
    let first: Rc<Cell<i32>> = Rc::new(Cell::new(0));
    let second: Rc<Cell<i32>> = Rc::new(Cell::new(0));
    let seq = one_shot(&first, vec![1]).before(ticking(&second, vec![1]));
    assert_eq!(seq.get_name(), "unnamed command->unnamed command".to_string());
    manager.schedule(seq);
    manager.run();
    assert_eq!(first.get(), 1);
    assert_eq!(second.get(), 0);
    manager.run();
    assert_eq!(first.get(), 1);
    assert_eq!(second.get(), 1);

    let mut manager = CommandManager::new();
    let head: Rc<Cell<i32>> = Rc::new(Cell::new(0));
    let tail: Rc<Cell<i32>> = Rc::new(Cell::new(0));
    let seq = ticking(&tail, vec![1]).after(one_shot(&head, vec![1]));
    manager.schedule(seq);
    manager.run();
    assert_eq!(head.get(), 1);
    assert_eq!(tail.get(), 0);
    manager.run();
    assert_eq!(head.get(), 1);
    assert_eq!(tail.get(), 1);
}

/// A group of many children merges all requirement lists and advances every
/// child.
#[test]
fn along_with_many_runs_all() {
    let mut manager = CommandManager::new();
    let a: Rc<Cell<i32>> = Rc::new(Cell::new(0));
    let b: Rc<Cell<i32>> = Rc::new(Cell::new(0));
    let c: Rc<Cell<i32>> = Rc::new(Cell::new(0));
    let group = ticking(&a, vec![1]).along_with_many(vec![
        ticking(&b, vec![2]),
        ticking(&c, vec![1]),
    ]);
    assert_eq!(group.get_requirements(), vec![1, 2]);
    manager.schedule(group);
    manager.run();
    assert_eq!(a.get(), 1);
    assert_eq!(b.get(), 1);
    assert_eq!(c.get(), 1);
}

/// A sequential chain of many commands advances exactly one child per tick
/// when each child finishes immediately.
#[test]
fn and_then_many_in_order() {
    let mut manager = CommandManager::new();
    let a: Rc<Cell<i32>> = Rc::new(Cell::new(0));
    let b: Rc<Cell<i32>> = Rc::new(Cell::new(0));
    let seq = one_shot(&a, vec![1]).and_then_many(vec![one_shot(&b, vec![1])]);
    manager.schedule(seq);
    manager.run();
    assert_eq!(a.get(), 1);
    assert_eq!(b.get(), 0);
    manager.run();
    assert_eq!(a.get(), 1);
    assert_eq!(b.get(), 1);
}

/// A named command keeps its own name and delegates the lifecycle.
#[test]
fn with_name_overrides_name() {
    let ticks: Rc<Cell<i32>> = Rc::new(Cell::new(0));
    let named = ticking(&ticks, vec![4]).with_name("drive");
    assert_eq!(named.get_name(), "drive".to_string());
    assert_eq!(named.get_requirements(), vec![4]);
    let mut manager = CommandManager::new();
    manager.schedule(named);
    manager.run();
    assert_eq!(ticks.get(), 1);
}

/// A zero-length wait is finished on its first tick and is freed.
#[test]
fn wait_for_zero_finishes() {
    let mut manager = CommandManager::new();
    let ticks: Rc<Cell<i32>> = Rc::new(Cell::new(0));
    let wait = ticking(&ticks, vec![]).wait_for(0);
    assert_eq!(wait.get_requirements(), Vec::<u8>::new());
    assert_eq!(wait.get_name(), "TimedCommand(0us)".to_string());
    let chased = wait.before(one_shot(&ticks, vec![]));
    manager.schedule(chased);
    manager.run();
    manager.run();
    assert_eq!(ticks.get(), 1);
}

struct CountedCommand {
    ticks: Rc<Cell<i32>>,
}

impl CommandTrait for CountedCommand {
    fn periodic(&mut self) {
        self.ticks.set(self.ticks.get() + 1);
    }
}

struct CountedSupplier {
    ticks: Rc<Cell<i32>>,
}

impl CommandSupplier for CountedSupplier {
    fn call(&self) -> SuppliedCommand {
        SuppliedCommand(Box::new(CountedCommand { ticks: self.ticks.clone() }))
    }
}

/// A proxy builds its wrapped command on first `init` and delegates from
/// then on.
#[test]
fn proxy_builds_lazily() {
    let mut manager = CommandManager::new();
    let ticks: Rc<Cell<i32>> = Rc::new(Cell::new(0));
    let proxy = Command::proxy(Box::new(CountedSupplier { ticks: ticks.clone() }));
    manager.schedule(proxy);
    manager.run();
    manager.run();
    assert_eq!(ticks.get(), 2);
}

/// A custom command participates in the tick like any built command.
#[test]
fn custom_command_runs() {
    let mut manager = CommandManager::new();
    let ticks: Rc<Cell<i32>> = Rc::new(Cell::new(0));
    let custom = Command::custom(Box::new(CountedCommand { ticks: ticks.clone() }));
    manager.schedule(custom);
    manager.run();
    assert_eq!(ticks.get(), 1);
}

/// The default command value is an empty simple command.
#[test]
fn default_is_empty() {
    let cmd = Command::default();
    assert_eq!(cmd.get_requirements(), Vec::<u8>::new());
    let empty = Command::empty();
    assert_eq!(empty.get_requirements(), Vec::<u8>::new());
    assert_eq!(empty.get_name(), "unnamed command".to_string());
}

#[test]
fn robot_mode_predicates() {
    assert!(RobotMode::Disabled.is_disabled());
    assert!(RobotMode::Teleop.is_teleop());
    assert!(RobotMode::Autonomous.is_autonomous());
    assert!(RobotMode::Test.is_test());
    assert!(!RobotMode::Teleop.is_disabled());
    assert_eq!(HardwareType::Sim, HardwareType::Sim);
    assert_eq!(EventTypes::Init, EventTypes::Init);
    assert_ne!(EventTypes::Periodic, EventTypes::End);
}
