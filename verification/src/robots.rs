use vstd::prelude::*;

verus! {

/// The operating mode the robot's main loop is in; the scheduler itself is
/// mode-agnostic and is simply ticked or not.
#[derive(Debug, Clone, Copy, PartialEq, Eq, Hash, Structural)]
pub enum RobotMode {
    Disabled,
    Teleop,
    Autonomous,
    Test,
}

impl RobotMode {
    pub fn is_disabled(&self) -> (r: bool)
        ensures
            r == (*self is Disabled),
    {
        matches!(self, RobotMode::Disabled)
    }

    pub fn is_autonomous(&self) -> (r: bool)
        ensures
            r == (*self is Autonomous),
    {
        matches!(self, RobotMode::Autonomous)
    }

    pub fn is_teleop(&self) -> (r: bool)
        ensures
            r == (*self is Teleop),
    {
        matches!(self, RobotMode::Teleop)
    }

    pub fn is_test(&self) -> (r: bool)
        ensures
            r == (*self is Test),
    {
        matches!(self, RobotMode::Test)
    }
}

/// What the robot code is running on.
#[derive(Debug, Clone, Copy, PartialEq, Eq, Hash, Structural)]
pub enum HardwareType {
    Sim,
    Athena,
    Other,
}

/// The loop driver implemented by a robot program's runtime.
pub trait RobotCore {
    fn start(&mut self);

    fn end(&mut self);

    fn get_mode(&self) -> RobotMode;
}

/// The hooks a user robot program implements; the runtime calls them from
/// its fixed-rate loop according to the current mode.
pub trait UserRobot {
    fn robot_init(&mut self);

    fn robot_periodic(&mut self);

    fn robot_end(&mut self);

    fn robot_disabled_init(&mut self) {
    }

    fn robot_disabled_periodic(&mut self) {
    }

    fn robot_disabled_end(&mut self) {
    }

    fn robot_autonomous_init(&mut self) {
    }

    fn robot_autonomous_periodic(&mut self) {
    }

    fn robot_autonomous_end(&mut self) {
    }

    fn robot_teleop_init(&mut self) {
    }

    fn robot_teleop_periodic(&mut self) {
    }

    fn robot_teleop_end(&mut self) {
    }

    fn robot_test_init(&mut self) {
    }

    fn robot_test_periodic(&mut self) {
    }

    fn robot_test_end(&mut self) {
    }

    fn sim_init(&mut self) {
    }

    fn sim_periodic(&mut self) {
    }
}

} // verus!
