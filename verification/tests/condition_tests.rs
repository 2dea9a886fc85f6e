use std::cell::Cell;
use std::rc::Rc;

use wpilib::commands::Action;
use wpilib::commands::BoolSupplier;
use wpilib::commands::CommandBuilder;
use wpilib::commands::EndAction;
use wpilib::manager::BoxedFn;
use wpilib::manager::CommandManager;
use wpilib::manager::Condition;
use wpilib::manager::ConditionResponse;
use wpilib::manager::ConditionalScheduler;
use wpilib::manager::Subsystem;
use wpilib::Command;

struct Noop;

impl Action for Noop {
    fn call(&mut self) {}
}

struct NoopEnd;

impl EndAction for NoopEnd {
    fn call(&mut self, _interrupted: bool) {}
}

struct ConstBool(bool);

impl BoolSupplier for ConstBool {
    fn call(&mut self) -> bool {
        self.0
    }
}

struct ReadCell(Rc<Cell<bool>>);

impl BoolSupplier for ReadCell {
    fn call(&mut self) -> bool {
        self.0.get()
    }
}

struct QuietSubsystem;

impl Subsystem for QuietSubsystem {}

struct BumpInit {
    counter: Rc<Cell<i32>>,
}

impl Action for BumpInit {
    fn call(&mut self) {
        self.counter.set(self.counter.get() + 1);
    }
}

struct DropEnd {
    counter: Rc<Cell<i32>>,
}

impl EndAction for DropEnd {
    fn call(&mut self, interrupted: bool) {
        if interrupted {
            self.counter.set(self.counter.get() - 1);
        }
    }
}

struct CounterFactory {
    counter: Rc<Cell<i32>>,
}

impl BoxedFn for CounterFactory {
    fn call(&self) -> Command {
        CommandBuilder::new()
            .init(Box::new(BumpInit { counter: self.counter.clone() }))
            .periodic(Box::new(Noop))
            .is_finished(Box::new(ConstBool(false)))
            .end(Box::new(DropEnd { counter: self.counter.clone() }))
            .with_requirements(vec![1])
            .build()
    }
}

/// `on_true` fires exactly once per rising edge of its source.
#[test]
fn on_true_edges() {
    let source: Rc<Cell<bool>> = Rc::new(Cell::new(false));
    let mut cond = wpilib::on_true(Box::new(ReadCell(source.clone())));
    let samples = [false, true, true, false, true, false];
    let expected = [
        ConditionResponse::NoChange,
        ConditionResponse::Start,
        ConditionResponse::NoChange,
        ConditionResponse::NoChange,
        ConditionResponse::Start,
        ConditionResponse::NoChange,
    ];
    for k in 0..samples.len() {
        source.set(samples[k]);
        assert_eq!(cond.get_condition(), expected[k]);
    }
}

/// `on_false` is `on_true` of the negated source.
#[test]
fn on_false_edges() {
    let source: Rc<Cell<bool>> = Rc::new(Cell::new(false));
    let mut cond = wpilib::on_false(Box::new(ReadCell(source.clone())));
    source.set(true);
    assert_eq!(cond.get_condition(), ConditionResponse::NoChange);
    source.set(false);
    assert_eq!(cond.get_condition(), ConditionResponse::Start);
    assert_eq!(cond.get_condition(), ConditionResponse::NoChange);
}

/// `while_true` walks Start / Continue / Stop / NoChange over the edges of
/// its source.
#[test]
fn while_true_responses() {
    let source: Rc<Cell<bool>> = Rc::new(Cell::new(false));
    let mut cond = wpilib::while_true(Box::new(ReadCell(source.clone())));
    assert_eq!(cond.get_condition(), ConditionResponse::NoChange);
    source.set(true);
    assert_eq!(cond.get_condition(), ConditionResponse::Start);
    assert_eq!(cond.get_condition(), ConditionResponse::Continue);
    source.set(false);
    assert_eq!(cond.get_condition(), ConditionResponse::Stop);
    assert_eq!(cond.get_condition(), ConditionResponse::NoChange);
}

/// `while_false` is `while_true` of the negated source.
#[test]
fn while_false_responses() {
    let source: Rc<Cell<bool>> = Rc::new(Cell::new(true));
    let mut cond = wpilib::while_false(Box::new(ReadCell(source.clone())));
    assert_eq!(cond.get_condition(), ConditionResponse::NoChange);
    source.set(false);
    assert_eq!(cond.get_condition(), ConditionResponse::Start);
    assert_eq!(cond.get_condition(), ConditionResponse::Continue);
    source.set(true);
    assert_eq!(cond.get_condition(), ConditionResponse::Stop);
}

/// A `while_true` condition drives a command: started once on the rising
/// edge, kept while the source holds, interrupted on the falling edge.
#[test]
fn while_true_drives_command() {
    let mut manager = CommandManager::new();
    let counter: Rc<Cell<i32>> = Rc::new(Cell::new(0));
    let source: Rc<Cell<bool>> = Rc::new(Cell::new(false));
    manager.register_subsystem(1, Box::new(QuietSubsystem), None);
    let mut scheduler = ConditionalScheduler::new();
    let cond = wpilib::while_true(Box::new(ReadCell(source.clone())));
    scheduler.add_cond(Box::new(cond), Box::new(CounterFactory { counter: counter.clone() }));
    manager.add_cond_scheduler(scheduler);
    source.set(false);
    manager.run();
    assert_eq!(counter.get(), 0);
    source.set(true);
    manager.run();
    assert_eq!(counter.get(), 1);
    manager.run();
    assert_eq!(counter.get(), 1);
    source.set(false);
    manager.run();
    assert_eq!(counter.get(), 0);
}
