use vstd::prelude::*;
use vstd::string::StringExecFns;

verus! {

/// A side-effecting hook with no arguments, supplied by the user of the
/// library and invoked by the scheduler through a trait object.  It plays
/// the role of a stored `init`/`periodic` callback.
pub trait Action {
    fn call(&mut self);
}

/// A side-effecting hook that receives whether the command was interrupted;
/// plays the role of a stored `end` callback.
pub trait EndAction {
    fn call(&mut self, interrupted: bool);
}

/// A stateful boolean supplier; plays the role of a stored `is_finished`
/// callback or of a condition source.
pub trait BoolSupplier {
    fn call(&mut self) -> bool;
}

/// The lifecycle contract every command obeys: `init` once when it starts
/// owning its requirements, `periodic` every tick while it owns them,
/// `end` exactly once when it finishes or is interrupted.
pub trait CommandTrait {
    fn init(&mut self) {
    }

    fn periodic(&mut self) {
    }

    fn end(&mut self, _interrupted: bool) {
    }

    fn is_finished(&mut self) -> bool {
        false
    }

    fn get_requirements(&self) -> Vec<u8> {
        Vec::new()
    }

    fn run_when_disabled(&self) -> bool {
        false
    }

    fn cancel_incoming(&self) -> bool {
        false
    }

    fn get_name(&self) -> String {
        "unnamed command".to_owned()
    }
}

/// A command assembled from optional user hooks; absent hooks are no-ops
/// (and `is_finished` defaults to `false`).
pub struct SimpleBuiltCommand {
    init: Option<Box<dyn Action>>,
    periodic: Option<Box<dyn Action>>,
    end: Option<Box<dyn EndAction>>,
    is_finished: Option<Box<dyn BoolSupplier>>,
    requirements: Vec<u8>,
}

impl SimpleBuiltCommand {
    pub closed spec fn reqs(&self) -> Seq<u8> {
        self.requirements@
    }

    /// Whether a user `is_finished` hook was installed; without one the
    /// command never reports itself finished.
    pub closed spec fn has_finished_hook(&self) -> bool {
        self.is_finished is Some
    }
}

impl CommandTrait for SimpleBuiltCommand {
    fn init(&mut self)
        ensures
            final(self).reqs() == old(self).reqs(),
            final(self).has_finished_hook() == old(self).has_finished_hook(),
    {
        if let Some(init) = self.init.as_mut() {
            init.call();
        }
    }

    fn periodic(&mut self)
        ensures
            final(self).reqs() == old(self).reqs(),
            final(self).has_finished_hook() == old(self).has_finished_hook(),
    {
        if let Some(periodic) = self.periodic.as_mut() {
            periodic.call();
        }
    }

    fn end(&mut self, interrupted: bool)
        ensures
            final(self).reqs() == old(self).reqs(),
            final(self).has_finished_hook() == old(self).has_finished_hook(),
    {
        if let Some(end) = self.end.as_mut() {
            end.call(interrupted);
        }
    }

    fn is_finished(&mut self) -> (r: bool)
        ensures
            final(self).reqs() == old(self).reqs(),
            final(self).has_finished_hook() == old(self).has_finished_hook(),
            !old(self).has_finished_hook() ==> r == false,
    {
        match self.is_finished.as_mut() {
            Some(is_finished) => is_finished.call(),
            None => false,
        }
    }

    fn get_requirements(&self) -> (r: Vec<u8>)
        ensures
            r@ == self.reqs(),
    {
        self.requirements.clone()
    }
}

/// Builder for a `SimpleBuiltCommand`, mirroring the lifecycle hook names.
pub struct CommandBuilder {
    init: Option<Box<dyn Action>>,
    periodic: Option<Box<dyn Action>>,
    end: Option<Box<dyn EndAction>>,
    is_finished: Option<Box<dyn BoolSupplier>>,
    requirements: Vec<u8>,
}

impl CommandBuilder {
    pub closed spec fn reqs(&self) -> Seq<u8> {
        self.requirements@
    }

    pub fn new() -> (r: CommandBuilder)
        ensures
            r.reqs() == Seq::<u8>::empty(),
    {
        CommandBuilder {
            init: None,
            periodic: None,
            end: None,
            is_finished: None,
            requirements: Vec::new(),
        }
    }

    pub fn init(self, init: Box<dyn Action>) -> (r: CommandBuilder)
        ensures
            r.reqs() == self.reqs(),
    {
        CommandBuilder { init: Some(init), ..self }
    }

    pub fn periodic(self, periodic: Box<dyn Action>) -> (r: CommandBuilder)
        ensures
            r.reqs() == self.reqs(),
    {
        CommandBuilder { periodic: Some(periodic), ..self }
    }

    pub fn end(self, end: Box<dyn EndAction>) -> (r: CommandBuilder)
        ensures
            r.reqs() == self.reqs(),
    {
        CommandBuilder { end: Some(end), ..self }
    }

    pub fn is_finished(self, is_finished: Box<dyn BoolSupplier>) -> (r: CommandBuilder)
        ensures
            r.reqs() == self.reqs(),
    {
        CommandBuilder { is_finished: Some(is_finished), ..self }
    }

    pub fn with_requirements(self, requirements: Vec<u8>) -> (r: CommandBuilder)
        ensures
            r.reqs() == requirements@,
    {
        CommandBuilder { requirements, ..self }
    }

    pub fn build(self) -> (r: Command)
        ensures
            r is Simple,
            r.reqs() == self.reqs(),
            r.reqs_known(),
            r.reqs_fixed(),
            r.name_known(),
    {
        Command::Simple(SimpleBuiltCommand {
            init: self.init,
            periodic: self.periodic,
            end: self.end,
            is_finished: self.is_finished,
            requirements: self.requirements,
        })
    }
}

impl CommandBuilder {
    pub fn start_only(init: Box<dyn Action>, requirements: Vec<u8>) -> (r: Command)
        ensures
            r is Simple,
            r.reqs() == requirements@,
            r.reqs_known(),
            r.reqs_fixed(),
            r.name_known(),
    {
        CommandBuilder::new().init(init).with_requirements(requirements).build()
    }

    pub fn run_only(periodic: Box<dyn Action>, requirements: Vec<u8>) -> (r: Command)
        ensures
            r is Simple,
            r.reqs() == requirements@,
            r.reqs_known(),
            r.reqs_fixed(),
            r.name_known(),
    {
        CommandBuilder::new().periodic(periodic).with_requirements(requirements).build()
    }

    pub fn end_only(end: Box<dyn EndAction>, requirements: Vec<u8>) -> (r: Command)
        ensures
            r is Simple,
            r.reqs() == requirements@,
            r.reqs_known(),
            r.reqs_fixed(),
            r.name_known(),
    {
        CommandBuilder::new().end(end).with_requirements(requirements).build()
    }

    pub fn run_start(
        init: Box<dyn Action>,
        periodic: Box<dyn Action>,
        requirements: Vec<u8>,
    ) -> (r: Command)
        ensures
            r is Simple,
            r.reqs() == requirements@,
            r.reqs_known(),
            r.reqs_fixed(),
            r.name_known(),
    {
        CommandBuilder::new().init(init).periodic(periodic).with_requirements(requirements).build()
    }

    pub fn run_end(
        periodic: Box<dyn Action>,
        end: Box<dyn EndAction>,
        requirements: Vec<u8>,
    ) -> (r: Command)
        ensures
            r is Simple,
            r.reqs() == requirements@,
            r.reqs_known(),
            r.reqs_fixed(),
            r.name_known(),
    {
        CommandBuilder::new().periodic(periodic).end(end).with_requirements(requirements).build()
    }

    pub fn start_end(
        init: Box<dyn Action>,
        end: Box<dyn EndAction>,
        requirements: Vec<u8>,
    ) -> (r: Command)
        ensures
            r is Simple,
            r.reqs() == requirements@,
            r.reqs_known(),
            r.reqs_fixed(),
            r.name_known(),
    {
        CommandBuilder::new().init(init).end(end).with_requirements(requirements).build()
    }

    pub fn run_start_end(
        init: Box<dyn Action>,
        periodic: Box<dyn Action>,
        end: Box<dyn EndAction>,
        requirements: Vec<u8>,
    ) -> (r: Command)
        ensures
            r is Simple,
            r.reqs() == requirements@,
            r.reqs_known(),
            r.reqs_fixed(),
            r.name_known(),
    {
        CommandBuilder::new()
            .init(init)
            .periodic(periodic)
            .end(end)
            .with_requirements(requirements)
            .build()
    }

    pub fn run_until(
        is_finished: Box<dyn BoolSupplier>,
        periodic: Box<dyn Action>,
        requirements: Vec<u8>,
    ) -> (r: Command)
        ensures
            r is Simple,
            r.reqs() == requirements@,
            r.reqs_known(),
            r.reqs_fixed(),
            r.name_known(),
    {
        CommandBuilder::new()
            .is_finished(is_finished)
            .periodic(periodic)
            .with_requirements(requirements)
            .build()
    }

    pub fn run_end_until(
        is_finished: Box<dyn BoolSupplier>,
        periodic: Box<dyn Action>,
        end: Box<dyn EndAction>,
        requirements: Vec<u8>,
    ) -> (r: Command)
        ensures
            r is Simple,
            r.reqs() == requirements@,
            r.reqs_known(),
            r.reqs_fixed(),
            r.name_known(),
    {
        CommandBuilder::new()
            .is_finished(is_finished)
            .periodic(periodic)
            .end(end)
            .with_requirements(requirements)
            .build()
    }

    pub fn start_run_until(
        init: Box<dyn Action>,
        is_finished: Box<dyn BoolSupplier>,
        requirements: Vec<u8>,
    ) -> (r: Command)
        ensures
            r is Simple,
            r.reqs() == requirements@,
            r.reqs_known(),
            r.reqs_fixed(),
            r.name_known(),
    {
        CommandBuilder::new()
            .init(init)
            .is_finished(is_finished)
            .with_requirements(requirements)
            .build()
    }

    pub fn all(
        init: Box<dyn Action>,
        periodic: Box<dyn Action>,
        end: Box<dyn EndAction>,
        is_finished: Box<dyn BoolSupplier>,
        requirements: Vec<u8>,
    ) -> (r: Command)
        ensures
            r is Simple,
            r.reqs() == requirements@,
            r.reqs_known(),
            r.reqs_fixed(),
            r.name_known(),
    {
        CommandBuilder::new()
            .init(init)
            .periodic(periodic)
            .end(end)
            .is_finished(is_finished)
            .with_requirements(requirements)
            .build()
    }
}

/// A group of commands advanced together within one tick; `race` decides
/// whether the group finishes when any child is done or when all are.
pub struct ParallelBuiltCommand {
    commands: Vec<Command>,
    finished: Vec<bool>,
    requirements: Vec<u8>,
    race: bool,
}

/// A chain of commands advanced one at a time, by index.
pub struct SequentialCommand {
    commands: Vec<Command>,
    current: usize,
    requirements: Vec<u8>,
}

/// A transparent wrapper that overrides only the diagnostic name.
pub struct NamedCommand {
    name: String,
    command: Box<Command>,
}

/// A command that finishes once a fixed number of microseconds has elapsed
/// since its `init`; it has no requirements.
pub struct WaitCommand {
    start_instant: Option<std::time::Instant>,
    duration_micros: u64,
}

/// A boxed user command, as handed out by a `CommandSupplier`.
pub struct SuppliedCommand(pub Box<dyn CommandTrait>);

/// A factory producing a fresh user command on demand; used by
/// `ProxyCommand` to defer construction until schedule time.
pub trait CommandSupplier {
    fn call(&self) -> SuppliedCommand;
}

/// A command whose wrapped command is built lazily, by a factory, on the
/// first `init`; every other call is delegated to the wrapped command once
/// it exists, and is a no-op (or `false`) before that.
pub struct ProxyCommand {
    command_supplier: Box<dyn CommandSupplier>,
    command: Option<Box<Command>>,
}

pub enum Command {
    Parallel(ParallelBuiltCommand),
    Sequential(SequentialCommand),
    Simple(SimpleBuiltCommand),
    Custom(SuppliedCommand),
    Named(NamedCommand),
    Wait(WaitCommand),
    Proxy(ProxyCommand),
}

#[verifier::external_type_specification]
#[verifier::external_body]
pub struct ExInstant(std::time::Instant);

/// Relies on `std::time::Instant::now`: an opaque reading of the monotonic
/// clock.  Nothing can be promised of the value itself.
#[verifier::external_body]
fn instant_now() -> std::time::Instant {
    std::time::Instant::now()
}

/// Relies on `std::time::Instant::elapsed`: how long ago `start` was read,
/// converted to whole microseconds (truncated into `u64`).  The value
/// depends on the real clock, so nothing is promised of it.
#[verifier::external_body]
fn elapsed_micros(start: &std::time::Instant) -> u64 {
    start.elapsed().as_micros() as u64
}

/// The concatenation of two strings.
fn concat2(a: &str, b: &str) -> (r: String)
    ensures
        r@ == a@ + b@,
{
    a.to_owned().concat(b)
}

/// The text that `format!` renders for a timed command's duration; it is a
/// function of the duration alone.
pub uninterp spec fn timed_name_of(duration_micros: u64) -> Seq<char>;

/// Relies on `format!`: the diagnostic name of a timed command; the text
/// depends only on the duration (see `timed_name_of`).
#[verifier::external_body]
fn timed_name(duration_micros: u64) -> (r: String)
    ensures
        r@ == timed_name_of(duration_micros),
{
    format!("TimedCommand({duration_micros}us)")
}

/// The shape of a command, used by contracts to say that lifecycle calls
/// never change what kind of command a slot holds.
pub enum CommandKind {
    Parallel,
    Sequential,
    Simple,
    Custom,
    Named,
    Wait,
    Proxy,
}

/// One lifecycle request handed to `Command::lifecycle`.  `Advance` bundles
/// the per-tick triple a parent runs on a child: `periodic`, then
/// `is_finished`, then `end(false)` the tick the child finishes.
#[derive(Clone, Copy)]
pub enum LifecycleOp {
    Init,
    Periodic,
    End(bool),
    IsFinished,
    Advance,
}

/// The children's names joined by `sep`.
pub closed spec fn join_names_spec(s: Seq<Command>, sep: Seq<char>) -> Seq<char>
    decreases s,
{
    if s.len() == 0 {
        Seq::empty()
    } else if s.len() == 1 {
        s[0].name_spec()
    } else {
        s[0].name_spec() + sep + join_names_spec(s.drop_first(), sep)
    }
}

/// Peeling the join from the back: one more child appends a separator and
/// that child's name.
proof fn lemma_join_snoc(s: Seq<Command>, sep: Seq<char>, k: int)
    requires
        0 <= k < s.len(),
    ensures
        join_names_spec(s.subrange(0, k + 1), sep) == if k == 0 {
            s[0].name_spec()
        } else {
            join_names_spec(s.subrange(0, k), sep) + sep + s[k].name_spec()
        },
    decreases k,
{
    let a = s.subrange(0, k + 1);
    if k == 0 {
        assert(a.len() == 1);
        assert(a[0] == s[0]);
    } else {
        let s2 = s.drop_first();
        lemma_join_snoc(s2, sep, k - 1);
        assert(a.drop_first() =~= s2.subrange(0, k));
        assert(a[0] == s[0]);
        if k == 1 {
            assert(s.subrange(0, 1).len() == 1);
            assert(s.subrange(0, 1)[0] == s[0]);
            assert(s2.subrange(0, 1)[0] == s[1]);
            assert(s2.subrange(0, 1).len() == 1);
            assert(s2[0] == s[1]);
        } else {
            assert(s.subrange(0, k).len() == k);
            assert(s.subrange(0, k)[0] == s[0]);
            assert(s.subrange(0, k).drop_first() =~= s2.subrange(0, k - 1));
            assert(s2[k - 1] == s[k]);
        }
    }
}

pub open spec fn all_set(s: Seq<bool>) -> bool {
    forall|i: int| 0 <= i < s.len() ==> s[i]
}

pub open spec fn any_set(s: Seq<bool>) -> bool {
    exists|i: int| 0 <= i < s.len() && s[i]
}

impl ParallelBuiltCommand {
    #[verifier::type_invariant]
    spec fn type_inv(&self) -> bool {
        self.finished@.len() == self.commands@.len()
    }

    pub closed spec fn children(&self) -> Seq<Command> {
        self.commands@
    }

    pub closed spec fn flags(&self) -> Seq<bool> {
        self.finished@
    }

    pub closed spec fn is_race(&self) -> bool {
        self.race
    }

    pub closed spec fn reqs_view(&self) -> Seq<u8> {
        self.requirements@
    }
}

impl SequentialCommand {
    #[verifier::type_invariant]
    spec fn type_inv(&self) -> bool {
        self.current <= self.commands@.len()
    }

    pub closed spec fn children(&self) -> Seq<Command> {
        self.commands@
    }

    pub closed spec fn index(&self) -> int {
        self.current as int
    }

    pub closed spec fn reqs_view(&self) -> Seq<u8> {
        self.requirements@
    }
}

impl NamedCommand {
    pub closed spec fn label(&self) -> Seq<char> {
        self.name@
    }

    pub closed spec fn inner(&self) -> Command {
        *self.command
    }
}

impl WaitCommand {
    pub closed spec fn started(&self) -> bool {
        self.start_instant is Some
    }

    pub closed spec fn duration(&self) -> u64 {
        self.duration_micros
    }
}

impl ProxyCommand {
    pub closed spec fn constructed(&self) -> bool {
        self.command is Some
    }

    /// Whether the name the proxy would answer is spec-visible.
    pub closed spec fn name_delegate_known(&self) -> bool {
        match &self.command {
            Some(c) => c.name_known(),
            None => true,
        }
    }

    /// The name the proxy answers: the wrapped command's, or the default
    /// before construction.
    pub closed spec fn name_delegate(&self) -> Seq<char> {
        match &self.command {
            Some(c) => c.name_spec(),
            None => "unnamed command"@,
        }
    }
}

impl Command {
    /// The requirement set of a command, as far as it is visible to the
    /// verifier; a `Custom` command answers through its trait object, so
    /// nothing is known of it (see `reqs_known`).
    pub closed spec fn reqs(&self) -> Seq<u8>
        decreases self,
    {
        match self {
            Command::Simple(c) => c.reqs(),
            Command::Parallel(g) => g.requirements@,
            Command::Sequential(sq) => sq.requirements@,
            Command::Named(n) => n.command.reqs(),
            Command::Wait(_) => Seq::empty(),
            Command::Proxy(p) => match &p.command {
                Some(c) => c.reqs(),
                None => Seq::empty(),
            },
            Command::Custom(_) => Seq::empty(),
        }
    }

    /// Whether `reqs` really describes what `get_requirements` returns:
    /// false as soon as a `Custom` command stands on the delegation path.
    pub closed spec fn reqs_known(&self) -> bool
        decreases self,
    {
        match self {
            Command::Simple(_) => true,
            Command::Parallel(_) => true,
            Command::Sequential(_) => true,
            Command::Named(n) => n.command.reqs_known(),
            Command::Wait(_) => true,
            Command::Proxy(p) => match &p.command {
                Some(c) => c.reqs_known(),
                None => true,
            },
            Command::Custom(_) => false,
        }
    }

    /// Whether the requirement set can no longer change under lifecycle
    /// calls: a proxy whose command is still unbuilt computes its
    /// requirements only at `init` time, so it is excluded.
    pub closed spec fn reqs_fixed(&self) -> bool
        decreases self,
    {
        match self {
            Command::Simple(_) => true,
            Command::Parallel(_) => true,
            Command::Sequential(_) => true,
            Command::Named(n) => n.command.reqs_fixed(),
            Command::Wait(_) => true,
            Command::Proxy(p) => match &p.command {
                Some(c) => c.reqs_fixed(),
                None => false,
            },
            Command::Custom(_) => true,
        }
    }

    /// Whether `name_spec` really describes what `get_name` answers: false
    /// as soon as a `Custom` command stands on the name-derivation path.
    pub closed spec fn name_known(&self) -> bool
        decreases self,
    {
        match self {
            Command::Simple(_) => true,
            Command::Parallel(g) => forall|i: int| 0 <= i < g.commands@.len()
                ==> (#[trigger] g.commands@[i]).name_known(),
            Command::Sequential(sq) => forall|i: int| 0 <= i < sq.commands@.len()
                ==> (#[trigger] sq.commands@[i]).name_known(),
            Command::Named(_) => true,
            Command::Wait(_) => true,
            Command::Proxy(p) => match &p.command {
                Some(c) => c.name_known(),
                None => true,
            },
            Command::Custom(_) => false,
        }
    }

    /// The diagnostic name a command derives: composites join their
    /// children's names (`,` for parallel, `->` for sequential), a named
    /// command answers its label, a timed command describes its duration.
    pub closed spec fn name_spec(&self) -> Seq<char>
        decreases self,
    {
        match self {
            Command::Simple(_) => "unnamed command"@,
            Command::Parallel(g) => join_names_spec(g.commands@, ","@),
            Command::Sequential(sq) => join_names_spec(sq.commands@, "->"@),
            Command::Named(n) => n.name@,
            Command::Wait(w) => timed_name_of(w.duration_micros),
            Command::Proxy(p) => match &p.command {
                Some(c) => c.name_spec(),
                None => "unnamed command"@,
            },
            Command::Custom(_) => Seq::empty(),
        }
    }

    pub open spec fn kind(&self) -> CommandKind {
        match self {
            Command::Parallel(_) => CommandKind::Parallel,
            Command::Sequential(_) => CommandKind::Sequential,
            Command::Simple(_) => CommandKind::Simple,
            Command::Custom(_) => CommandKind::Custom,
            Command::Named(_) => CommandKind::Named,
            Command::Wait(_) => CommandKind::Wait,
            Command::Proxy(_) => CommandKind::Proxy,
        }
    }

    pub fn empty() -> (r: Command)
        ensures
            r is Simple,
            r.reqs() == Seq::<u8>::empty(),
            r.reqs_known(),
            r.reqs_fixed(),
            r.name_known(),
    {
        CommandBuilder::new().build()
    }
}

fn all_true(v: &Vec<bool>) -> (r: bool)
    ensures
        r == all_set(v@),
{
    let mut i: usize = 0;
    while i < v.len()
        invariant
            i <= v@.len(),
            forall|j: int| 0 <= j < i ==> v@[j],
        decreases v@.len() - i,
    {
        if !v[i] {
            return false;
        }
        i += 1;
    }
    true
}

fn any_true(v: &Vec<bool>) -> (r: bool)
    ensures
        r == any_set(v@),
{
    let mut i: usize = 0;
    while i < v.len()
        invariant
            i <= v@.len(),
            forall|j: int| 0 <= j < i ==> !v@[j],
        decreases v@.len() - i,
    {
        if v[i] {
            return true;
        }
        i += 1;
    }
    false
}

impl Command {
    /// Runs one lifecycle request against this command, consuming and
    /// returning it.  The boolean result is meaningful for `IsFinished` and
    /// `Advance` and is `false` for every other request.
    #[verifier::loop_isolation(false)]
    #[verifier::rlimit(60)]
    pub fn lifecycle(self, op: LifecycleOp) -> (res: (Command, bool))
        ensures
            res.0.kind() == self.kind(),
            self.reqs_fixed() ==> res.0.reqs_fixed(),
            self.reqs_fixed() ==> res.0.reqs() == self.reqs(),
            self.reqs_fixed() ==> res.0.reqs_known() == self.reqs_known(),
            (op is Init || op is Periodic || op is End) ==> res.1 == false,
            self is Parallel ==> {
                let g = self->Parallel_0;
                let h = res.0->Parallel_0;
                &&& h.children().len() == g.children().len()
                &&& h.flags().len() == g.flags().len()
                &&& h.is_race() == g.is_race()
                &&& h.reqs_view() == g.reqs_view()
                &&& forall|i: int| 0 <= i < g.flags().len() && g.flags()[i]
                    ==> #[trigger] h.flags()[i]
                &&& (op is Init ==> h.flags() == g.flags())
                &&& (op is IsFinished ==> res.0 == self
                    && res.1 == (if g.is_race() { any_set(g.flags()) } else { all_set(g.flags()) }))
                &&& (op is Advance ==> res.1
                    == (if g.is_race() { any_set(h.flags()) } else { all_set(h.flags()) }))
                &&& ((op is End && op->End_0) ==> all_set(h.flags()))
                &&& ((op is Periodic || op is Advance || op is End) ==> forall|i: int|
                    0 <= i < g.flags().len() && g.flags()[i]
                        ==> #[trigger] h.children()[i] == g.children()[i])
                &&& ((op is End && !op->End_0) ==> h.children() == g.children()
                    && h.flags() == g.flags())
            },
            self is Sequential ==> {
                let g = self->Sequential_0;
                let h = res.0->Sequential_0;
                &&& h.children().len() == g.children().len()
                &&& h.reqs_view() == g.reqs_view()
                &&& g.index() <= h.index() <= g.index() + 1
                &&& h.index() <= h.children().len()
                &&& ((op is Init || op is End || op is IsFinished) ==> h.index() == g.index())
                &&& (op is IsFinished ==> res.0 == self
                    && res.1 == (g.index() >= g.children().len()))
                &&& (op is Advance ==> res.1 == (h.index() >= h.children().len()))
                &&& ((op is Init || op is End) ==> forall|i: int|
                    0 <= i < g.children().len() && i != g.index()
                        ==> #[trigger] h.children()[i] == g.children()[i])
                &&& ((op is Periodic || op is Advance) ==> forall|i: int|
                    0 <= i < g.children().len() && i != g.index() && i != g.index() + 1
                        ==> #[trigger] h.children()[i] == g.children()[i])
            },
            self is Wait ==> {
                let g = self->Wait_0;
                let h = res.0->Wait_0;
                &&& h.duration() == g.duration()
                &&& (op is Init ==> h.started())
                &&& (g.started() ==> h.started())
            },
            self is Named ==> res.0->Named_0.label() == self->Named_0.label(),
            self is Proxy ==> {
                &&& (op is Init ==> res.0->Proxy_0.constructed())
                &&& (self->Proxy_0.constructed() ==> res.0->Proxy_0.constructed())
            },
        decreases self,
    {
        let ghost self0 = self;
        match self {
            Command::Parallel(g) => {
                proof {
                    use_type_invariant(&g);
                }
                let ghost g0 = g;
                let ParallelBuiltCommand { mut commands, mut finished, requirements, race } = g;
                let ghost orig = commands@;
                let ghost flags0 = finished@;
                match op {
                    LifecycleOp::Init => {
                        let mut done: Vec<Command> = Vec::new();
                        while commands.len() > 0
                            invariant
                                done@.len() + commands@.len() == orig.len(),
                                commands@ == orig.subrange(done@.len() as int, orig.len() as int),
                            decreases commands@.len(),
                        {
                            proof {
                                let k = done@.len() as int;
                                assert(commands@[0] == orig[k]);
                                assert(decreases_to!(self0 => self0->Parallel_0));
                                assert(decreases_to!(g0 => g0.commands));
                                assert(decreases_to!(g0.commands => g0.commands@));
                                assert(decreases_to!(g0.commands@ => orig[k]));
                            }
                            let c = commands.remove(0);
                            let (c2, _) = c.lifecycle(LifecycleOp::Init);
                            done.push(c2);
                        }
                        (Command::Parallel(ParallelBuiltCommand {
                            commands: done,
                            finished,
                            requirements,
                            race,
                        }), false)
                    }
                    LifecycleOp::Periodic | LifecycleOp::Advance => {
                        let mut done: Vec<Command> = Vec::new();
                        while commands.len() > 0
                            invariant
                                done@.len() + commands@.len() == orig.len(),
                                commands@ == orig.subrange(done@.len() as int, orig.len() as int),
                                finished@.len() == flags0.len(),
                                forall|j: int| 0 <= j < orig.len() && flags0[j]
                                    ==> #[trigger] finished@[j],
                                forall|j: int| done@.len() <= j < orig.len()
                                    ==> #[trigger] finished@[j] == flags0[j],
                                forall|j: int| 0 <= j < done@.len() && flags0[j]
                                    ==> #[trigger] done@[j] == orig[j],
                            decreases commands@.len(),
                        {
                            proof {
                                let k = done@.len() as int;
                                assert(commands@[0] == orig[k]);
                                assert(decreases_to!(self0 => self0->Parallel_0));
                                assert(decreases_to!(g0 => g0.commands));
                                assert(decreases_to!(g0.commands => g0.commands@));
                                assert(decreases_to!(g0.commands@ => orig[k]));
                            }
                            let i = done.len();
                            let c = commands.remove(0);
                            if !finished[i] {
                                let (c2, fin) = c.lifecycle(LifecycleOp::Advance);
                                if fin {
                                    finished[i] = true;
                                }
                                done.push(c2);
                            } else {
                                done.push(c);
                            }
                        }
                        let fin_self = if matches!(op, LifecycleOp::Advance) {
                            if race {
                                any_true(&finished)
                            } else {
                                all_true(&finished)
                            }
                        } else {
                            false
                        };
                        (Command::Parallel(ParallelBuiltCommand {
                            commands: done,
                            finished,
                            requirements,
                            race,
                        }), fin_self)
                    }
                    LifecycleOp::End(interrupted) => {
                        if interrupted {
                            let mut done: Vec<Command> = Vec::new();
                            while commands.len() > 0
                                invariant
                                    done@.len() + commands@.len() == orig.len(),
                                    commands@ == orig.subrange(done@.len() as int, orig.len() as int),
                                    finished@.len() == flags0.len(),
                                    forall|j: int| 0 <= j < done@.len() ==> #[trigger] finished@[j],
                                    forall|j: int| done@.len() <= j < orig.len()
                                        ==> #[trigger] finished@[j] == flags0[j],
                                    forall|j: int| 0 <= j < done@.len() && flags0[j]
                                        ==> #[trigger] done@[j] == orig[j],
                                decreases commands@.len(),
                            {
                                proof {
                                    let k = done@.len() as int;
                                    assert(commands@[0] == orig[k]);
                                    assert(decreases_to!(self0 => self0->Parallel_0));
                                    assert(decreases_to!(g0 => g0.commands));
                                    assert(decreases_to!(g0.commands => g0.commands@));
                                    assert(decreases_to!(g0.commands@ => orig[k]));
                                }
                                let i = done.len();
                                let c = commands.remove(0);
                                if !finished[i] {
                                    let (c2, _) = c.lifecycle(LifecycleOp::End(true));
                                    finished[i] = true;
                                    done.push(c2);
                                } else {
                                    finished[i] = true;
                                    done.push(c);
                                }
                            }
                            (Command::Parallel(ParallelBuiltCommand {
                                commands: done,
                                finished,
                                requirements,
                                race,
                            }), false)
                        } else {
                            (Command::Parallel(ParallelBuiltCommand {
                                commands,
                                finished,
                                requirements,
                                race,
                            }), false)
                        }
                    }
                    LifecycleOp::IsFinished => {
                        let fin = if race {
                            any_true(&finished)
                        } else {
                            all_true(&finished)
                        };
                        (Command::Parallel(ParallelBuiltCommand {
                            commands,
                            finished,
                            requirements,
                            race,
                        }), fin)
                    }
                }
            }
            Command::Sequential(sq) => {
                proof {
                    use_type_invariant(&sq);
                }
                let ghost sq0 = sq;
                let SequentialCommand { mut commands, mut current, requirements } = sq;
                match op {
                    LifecycleOp::Init => {
                        if current < commands.len() {
                            proof {
                                assert(decreases_to!(self0 => self0->Sequential_0));
                                assert(decreases_to!(sq0 => sq0.commands));
                                assert(decreases_to!(sq0.commands => sq0.commands@));
                                assert(decreases_to!(sq0.commands@ => sq0.commands@[current as int]));
                            }
                            let c = commands.remove(current);
                            let (c2, _) = c.lifecycle(LifecycleOp::Init);
                            commands.insert(current, c2);
                        }
                        (Command::Sequential(SequentialCommand { commands, current, requirements }), false)
                    }
                    LifecycleOp::Periodic | LifecycleOp::Advance => {
                        if current < commands.len() {
                            proof {
                                assert(decreases_to!(self0 => self0->Sequential_0));
                                assert(decreases_to!(sq0 => sq0.commands));
                                assert(decreases_to!(sq0.commands => sq0.commands@));
                                assert(decreases_to!(sq0.commands@ => sq0.commands@[current as int]));
                            }
                            let c = commands.remove(current);
                            let (c2, fin) = c.lifecycle(LifecycleOp::Advance);
                            commands.insert(current, c2);
                            if fin {
                                current = current + 1;
                                if current < commands.len() {
                                    proof {
                                        assert(commands@[current as int] == sq0.commands@[current as int]);
                                        assert(decreases_to!(self0 => self0->Sequential_0));
                                        assert(decreases_to!(sq0 => sq0.commands));
                                        assert(decreases_to!(sq0.commands => sq0.commands@));
                                        assert(decreases_to!(sq0.commands@ => sq0.commands@[current as int]));
                                    }
                                    let n = commands.remove(current);
                                    let (n2, _) = n.lifecycle(LifecycleOp::Init);
                                    commands.insert(current, n2);
                                }
                            }
                        }
                        let fin_self = if matches!(op, LifecycleOp::Advance) {
                            current >= commands.len()
                        } else {
                            false
                        };
                        (Command::Sequential(SequentialCommand { commands, current, requirements }), fin_self)
                    }
                    LifecycleOp::End(interrupted) => {
                        if interrupted && current < commands.len() {
                            proof {
                                assert(decreases_to!(self0 => self0->Sequential_0));
                                assert(decreases_to!(sq0 => sq0.commands));
                                assert(decreases_to!(sq0.commands => sq0.commands@));
                                assert(decreases_to!(sq0.commands@ => sq0.commands@[current as int]));
                            }
                            let c = commands.remove(current);
                            let (c2, _) = c.lifecycle(LifecycleOp::End(true));
                            commands.insert(current, c2);
                        }
                        (Command::Sequential(SequentialCommand { commands, current, requirements }), false)
                    }
                    LifecycleOp::IsFinished => {
                        let fin = current >= commands.len();
                        (Command::Sequential(SequentialCommand { commands, current, requirements }), fin)
                    }
                }
            }
            Command::Simple(c) => {
                let SimpleBuiltCommand { mut init, mut periodic, mut end, mut is_finished, requirements } = c;
                let mut fin = false;
                match op {
                    LifecycleOp::Init => {
                        if let Some(h) = init.as_mut() {
                            h.call();
                        }
                    }
                    LifecycleOp::Periodic => {
                        if let Some(h) = periodic.as_mut() {
                            h.call();
                        }
                    }
                    LifecycleOp::End(interrupted) => {
                        if let Some(h) = end.as_mut() {
                            h.call(interrupted);
                        }
                    }
                    LifecycleOp::IsFinished => {
                        fin = match is_finished.as_mut() {
                            Some(h) => h.call(),
                            None => false,
                        };
                    }
                    LifecycleOp::Advance => {
                        if let Some(h) = periodic.as_mut() {
                            h.call();
                        }
                        fin = match is_finished.as_mut() {
                            Some(h) => h.call(),
                            None => false,
                        };
                        if fin {
                            if let Some(h) = end.as_mut() {
                                h.call(false);
                            }
                        }
                    }
                }
                (Command::Simple(SimpleBuiltCommand { init, periodic, end, is_finished, requirements }), fin)
            }
            Command::Custom(mut c) => {
                let mut fin = false;
                match op {
                    LifecycleOp::Init => c.0.init(),
                    LifecycleOp::Periodic => c.0.periodic(),
                    LifecycleOp::End(interrupted) => c.0.end(interrupted),
                    LifecycleOp::IsFinished => {
                        fin = c.0.is_finished();
                    }
                    LifecycleOp::Advance => {
                        c.0.periodic();
                        fin = c.0.is_finished();
                        if fin {
                            c.0.end(false);
                        }
                    }
                }
                (Command::Custom(c), fin)
            }
            Command::Named(n) => {
                proof {
                    assert(decreases_to!(self0 => self0->Named_0));
                    assert(decreases_to!(self0->Named_0 => self0->Named_0.command));
                }
                let NamedCommand { name, command } = n;
                let (c2, fin) = (*command).lifecycle(op);
                (Command::Named(NamedCommand { name, command: Box::new(c2) }), fin)
            }
            Command::Wait(w) => {
                let WaitCommand { mut start_instant, duration_micros } = w;
                let mut fin = false;
                match op {
                    LifecycleOp::Init => {
                        start_instant = Some(instant_now());
                    }
                    LifecycleOp::IsFinished | LifecycleOp::Advance => {
                        fin = match &start_instant {
                            Some(s) => elapsed_micros(s) >= duration_micros,
                            None => false,
                        };
                    }
                    LifecycleOp::Periodic => {}
                    LifecycleOp::End(_) => {}
                }
                (Command::Wait(WaitCommand { start_instant, duration_micros }), fin)
            }
            Command::Proxy(mut p) => {
                let ghost p0 = p;
                let mut fin = false;
                let cur = p.command.take();
                match cur {
                    Some(c) => {
                        proof {
                            assert(decreases_to!(self0 => self0->Proxy_0));
                            assert(decreases_to!(p0 => p0.command));
                            assert(decreases_to!(p0.command => *p0.command->0));
                        }
                        let (c2, f) = (*c).lifecycle(op);
                        if matches!(op, LifecycleOp::IsFinished) || matches!(op, LifecycleOp::Advance) {
                            fin = f;
                        }
                        p.command = Some(Box::new(c2));
                    }
                    None => {
                        if matches!(op, LifecycleOp::Init) {
                            let mut built = p.command_supplier.call();
                            built.0.init();
                            let constructed = Command::Custom(built);
                            p.command = Some(Box::new(constructed));
                        }
                    }
                }
                (Command::Proxy(p), fin)
            }
        }
    }
}

pub open spec fn no_dups(s: Seq<u8>) -> bool {
    forall|i: int, j: int| 0 <= i < j < s.len() ==> s[i] != s[j]
}

fn vec_contains(v: &Vec<u8>, x: u8) -> (r: bool)
    ensures
        r == v@.contains(x),
{
    let mut i: usize = 0;
    while i < v.len()
        invariant
            i <= v@.len(),
            forall|j: int| 0 <= j < i ==> v@[j] != x,
        decreases v@.len() - i,
    {
        if v[i] == x {
            assert(v@[i as int] == x);
            return true;
        }
        i += 1;
    }
    false
}

/// Adds every element of `src` that `r` does not hold yet, keeping `r`
/// free of duplicates.
fn extend_unique(r: &mut Vec<u8>, src: &Vec<u8>)
    requires
        no_dups(old(r)@),
    ensures
        no_dups(final(r)@),
        forall|x: u8| final(r)@.contains(x) ==> old(r)@.contains(x) || src@.contains(x),
        forall|x: u8| old(r)@.contains(x) ==> final(r)@.contains(x),
        forall|x: u8| src@.contains(x) ==> final(r)@.contains(x),
{
    let mut i: usize = 0;
    while i < src.len()
        invariant
            i <= src@.len(),
            no_dups(r@),
            forall|x: u8| old(r)@.contains(x) ==> r@.contains(x),
            forall|j: int| 0 <= j < i ==> r@.contains(#[trigger] src@[j]),
            forall|x: u8| r@.contains(x) ==> old(r)@.contains(x) || src@.contains(x),
        decreases src@.len() - i,
    {
        let x = src[i];
        assert(src@.contains(src@[i as int]));
        if !vec_contains(r, x) {
            let ghost prev = r@;
            r.push(x);
            proof {
                assert forall|y: u8| r@.contains(y) implies prev.contains(y) || y == x by {
                    let k = choose|k: int| 0 <= k < r@.len() && r@[k] == y;
                    if k < prev.len() {
                        assert(prev[k] == y);
                    }
                }
                assert forall|y: u8| prev.contains(y) implies r@.contains(y) by {
                    let k = choose|k: int| 0 <= k < prev.len() && prev[k] == y;
                    assert(r@[k] == y);
                }
                assert(r@[r@.len() - 1] == x);
            }
        }
        i += 1;
    }
}

/// The requirement union of two requirement lists, without duplicates.
fn union_requirements(a: &Vec<u8>, b: &Vec<u8>) -> (r: Vec<u8>)
    ensures
        no_dups(r@),
        forall|x: u8| r@.contains(x) ==> a@.contains(x) || b@.contains(x),
        forall|x: u8| a@.contains(x) ==> r@.contains(x),
        forall|x: u8| b@.contains(x) ==> r@.contains(x),
{
    let mut r: Vec<u8> = Vec::new();
    extend_unique(&mut r, a);
    extend_unique(&mut r, b);
    r
}

impl Command {
    /// The requirement list of this command, asked of the live object, as
    /// `get_requirements` answers it.
    pub fn requirements_vec(&self) -> (r: Vec<u8>)
        ensures
            self.reqs_known() ==> r@ == self.reqs(),
        decreases self,
    {
        match self {
            Command::Simple(c) => c.requirements.clone(),
            Command::Parallel(g) => g.requirements.clone(),
            Command::Sequential(sq) => sq.requirements.clone(),
            Command::Named(n) => (*n.command).requirements_vec(),
            Command::Wait(_) => Vec::new(),
            Command::Custom(c) => c.0.get_requirements(),
            Command::Proxy(p) => match &p.command {
                Some(c) => (*c).requirements_vec(),
                None => Vec::new(),
            },
        }
    }

    /// The diagnostic name of this command: composites join their
    /// children's names, a named command answers its label, a timed
    /// command describes its duration.
    #[verifier::loop_isolation(false)]
    pub fn name_of(&self) -> (r: String)
        ensures
            self.name_known() ==> r@ == self.name_spec(),
        decreases self,
    {
        match self {
            Command::Simple(_) => "unnamed command".to_owned(),
            Command::Parallel(g) => {
                let ghost known = self.name_known();
                let mut joined = String::new();
                let mut i: usize = 0;
                while i < g.commands.len()
                    invariant
                        i <= g.commands@.len(),
                        known ==> joined@ == join_names_spec(
                            g.commands@.subrange(0, i as int),
                            ","@,
                        ),
                    decreases g.commands@.len() - i,
                {
                    proof {
                        assert(decreases_to!(*self => self->Parallel_0));
                        assert(decreases_to!(self->Parallel_0 => self->Parallel_0.commands));
                        assert(decreases_to!(self->Parallel_0.commands
                            => self->Parallel_0.commands@));
                        assert(decreases_to!(self->Parallel_0.commands@
                            => self->Parallel_0.commands@[i as int]));
                    }
                    if i > 0 {
                        joined = concat2(joined.as_str(), ",");
                    }
                    let child_name = g.commands[i].name_of();
                    joined = concat2(joined.as_str(), child_name.as_str());
                    proof {
                        if known {
                            assert(g.commands@[i as int].name_known());
                            lemma_join_snoc(g.commands@, ","@, i as int);
                        }
                    }
                    i += 1;
                }
                proof {
                    if known {
                        assert(g.commands@.subrange(0, g.commands@.len() as int)
                            =~= g.commands@);
                    }
                }
                joined
            }
            Command::Sequential(sq) => {
                let ghost known = self.name_known();
                let mut joined = String::new();
                let mut i: usize = 0;
                while i < sq.commands.len()
                    invariant
                        i <= sq.commands@.len(),
                        known ==> joined@ == join_names_spec(
                            sq.commands@.subrange(0, i as int),
                            "->"@,
                        ),
                    decreases sq.commands@.len() - i,
                {
                    proof {
                        assert(decreases_to!(*self => self->Sequential_0));
                        assert(decreases_to!(self->Sequential_0 => self->Sequential_0.commands));
                        assert(decreases_to!(self->Sequential_0.commands
                            => self->Sequential_0.commands@));
                        assert(decreases_to!(self->Sequential_0.commands@
                            => self->Sequential_0.commands@[i as int]));
                    }
                    if i > 0 {
                        joined = concat2(joined.as_str(), "->");
                    }
                    let child_name = sq.commands[i].name_of();
                    joined = concat2(joined.as_str(), child_name.as_str());
                    proof {
                        if known {
                            assert(sq.commands@[i as int].name_known());
                            lemma_join_snoc(sq.commands@, "->"@, i as int);
                        }
                    }
                    i += 1;
                }
                proof {
                    if known {
                        assert(sq.commands@.subrange(0, sq.commands@.len() as int)
                            =~= sq.commands@);
                    }
                }
                joined
            }
            Command::Custom(c) => c.0.get_name(),
            Command::Named(n) => n.name.clone(),
            Command::Wait(w) => timed_name(w.duration_micros),
            Command::Proxy(p) => match &p.command {
                Some(c) => (*c).name_of(),
                None => "unnamed command".to_owned(),
            },
        }
    }

    /// Pairs this command with another into a parallel group that finishes
    /// when all children have finished.
    pub fn along_with(self, other: Command) -> (r: Command)
        ensures
            r is Parallel,
            r->Parallel_0.children() == seq![self, other],
            r->Parallel_0.flags() == seq![false, false],
            !r->Parallel_0.is_race(),
            self.name_known() && other.name_known() ==> r.name_known(),
            no_dups(r->Parallel_0.reqs_view()),
            r.reqs_known(),
            r.reqs_fixed(),
            self.reqs_known() && other.reqs_known() ==> {
                &&& forall|x: u8| r.reqs().contains(x)
                    ==> self.reqs().contains(x) || other.reqs().contains(x)
                &&& forall|x: u8| self.reqs().contains(x) ==> r.reqs().contains(x)
                &&& forall|x: u8| other.reqs().contains(x) ==> r.reqs().contains(x)
            },
    {
        let ra = self.requirements_vec();
        let rb = other.requirements_vec();
        let requirements = union_requirements(&ra, &rb);
        let mut commands: Vec<Command> = Vec::new();
        commands.push(self);
        commands.push(other);
        let mut finished: Vec<bool> = Vec::new();
        finished.push(false);
        finished.push(false);
        let group = ParallelBuiltCommand { commands, finished, requirements, race: false };
        Command::Parallel(group)
    }

    /// Pairs this command with another into a racing parallel group that
    /// finishes as soon as any child has finished.
    pub fn race_with(self, other: Command) -> (r: Command)
        ensures
            r is Parallel,
            r->Parallel_0.children() == seq![self, other],
            r->Parallel_0.flags() == seq![false, false],
            r->Parallel_0.is_race(),
            self.name_known() && other.name_known() ==> r.name_known(),
            no_dups(r->Parallel_0.reqs_view()),
            r.reqs_known(),
            r.reqs_fixed(),
            self.reqs_known() && other.reqs_known() ==> {
                &&& forall|x: u8| r.reqs().contains(x)
                    ==> self.reqs().contains(x) || other.reqs().contains(x)
                &&& forall|x: u8| self.reqs().contains(x) ==> r.reqs().contains(x)
                &&& forall|x: u8| other.reqs().contains(x) ==> r.reqs().contains(x)
            },
    {
        let ra = self.requirements_vec();
        let rb = other.requirements_vec();
        let requirements = union_requirements(&ra, &rb);
        let mut commands: Vec<Command> = Vec::new();
        commands.push(self);
        commands.push(other);
        let mut finished: Vec<bool> = Vec::new();
        finished.push(false);
        finished.push(false);
        let group = ParallelBuiltCommand { commands, finished, requirements, race: true };
        Command::Parallel(group)
    }

    /// Chains this command before another into a sequential command.
    pub fn before(self, other: Command) -> (r: Command)
        ensures
            r is Sequential,
            r->Sequential_0.children() == seq![self, other],
            r->Sequential_0.index() == 0,
            self.name_known() && other.name_known() ==> r.name_known(),
            no_dups(r->Sequential_0.reqs_view()),
            r.reqs_known(),
            r.reqs_fixed(),
            self.reqs_known() && other.reqs_known() ==> {
                &&& forall|x: u8| r.reqs().contains(x)
                    ==> self.reqs().contains(x) || other.reqs().contains(x)
                &&& forall|x: u8| self.reqs().contains(x) ==> r.reqs().contains(x)
                &&& forall|x: u8| other.reqs().contains(x) ==> r.reqs().contains(x)
            },
    {
        let ra = self.requirements_vec();
        let rb = other.requirements_vec();
        let requirements = union_requirements(&ra, &rb);
        let mut commands: Vec<Command> = Vec::new();
        commands.push(self);
        commands.push(other);
        let sq = SequentialCommand { commands, current: 0, requirements };
        Command::Sequential(sq)
    }

    /// Chains this command after another into a sequential command: the
    /// other command is scheduled first.
    pub fn after(self, other: Command) -> (r: Command)
        ensures
            r is Sequential,
            r->Sequential_0.children() == seq![other, self],
            r->Sequential_0.index() == 0,
            self.name_known() && other.name_known() ==> r.name_known(),
            no_dups(r->Sequential_0.reqs_view()),
            r.reqs_known(),
            r.reqs_fixed(),
            self.reqs_known() && other.reqs_known() ==> {
                &&& forall|x: u8| r.reqs().contains(x)
                    ==> self.reqs().contains(x) || other.reqs().contains(x)
                &&& forall|x: u8| self.reqs().contains(x) ==> r.reqs().contains(x)
                &&& forall|x: u8| other.reqs().contains(x) ==> r.reqs().contains(x)
            },
    {
        let ra = self.requirements_vec();
        let rb = other.requirements_vec();
        let requirements = union_requirements(&ra, &rb);
        let mut commands: Vec<Command> = Vec::new();
        commands.push(other);
        commands.push(self);
        let sq = SequentialCommand { commands, current: 0, requirements };
        Command::Sequential(sq)
    }

    /// Collects this command followed by `others` into one child list,
    /// with the duplicate-free union of all their requirement lists.
    #[verifier::loop_isolation(false)]
    fn collect_group(self, others: Vec<Command>) -> (res: (Vec<Command>, Vec<u8>))
        ensures
            res.0@ == seq![self] + others@,
            no_dups(res.1@),
            self.reqs_known()
                && (forall|k: int| 0 <= k < others@.len()
                    ==> (#[trigger] others@[k]).reqs_known()) ==> {
                &&& forall|x: u8| res.1@.contains(x) ==> self.reqs().contains(x)
                    || exists|k: int| 0 <= k < others@.len()
                        && (#[trigger] others@[k]).reqs().contains(x)
                &&& forall|x: u8| self.reqs().contains(x) ==> res.1@.contains(x)
                &&& forall|k: int, x: u8| 0 <= k < others@.len()
                    && #[trigger] others@[k].reqs().contains(x) ==> res.1@.contains(x)
            },
    {
        let ghost first0 = self;
        let ghost others0 = others@;
        let ghost known = self.reqs_known()
            && (forall|k: int| 0 <= k < others@.len() ==> (#[trigger] others@[k]).reqs_known());
        let mut acc: Vec<u8> = Vec::new();
        let ra = self.requirements_vec();
        extend_unique(&mut acc, &ra);
        let mut commands: Vec<Command> = Vec::new();
        commands.push(self);
        let mut rest = others;
        while rest.len() > 0
            invariant
                rest@.len() <= others0.len(),
                rest@ == others0.subrange(others0.len() - rest@.len(), others0.len() as int),
                commands@ == seq![first0] + others0.subrange(0, others0.len() - rest@.len()),
                no_dups(acc@),
                known ==> forall|x: u8| acc@.contains(x) ==> first0.reqs().contains(x)
                    || exists|k: int| 0 <= k < others0.len() - rest@.len()
                        && (#[trigger] others0[k]).reqs().contains(x),
                known ==> forall|x: u8| first0.reqs().contains(x) ==> acc@.contains(x),
                known ==> forall|k: int, x: u8| 0 <= k < others0.len() - rest@.len()
                    && #[trigger] others0[k].reqs().contains(x) ==> acc@.contains(x),
            decreases rest@.len(),
        {
            let ghost done = others0.len() - rest@.len();
            proof {
                assert(rest@[0] == others0[done as int]);
            }
            let c = rest.remove(0);
            let rc = c.requirements_vec();
            let ghost acc_before = acc@;
            extend_unique(&mut acc, &rc);
            commands.push(c);
            proof {
                if known {
                    assert forall|x: u8| acc@.contains(x) implies first0.reqs().contains(x)
                        || exists|k: int| 0 <= k < others0.len() - rest@.len()
                            && (#[trigger] others0[k]).reqs().contains(x) by {
                        if !acc_before.contains(x) {
                            assert(rc@.contains(x));
                            assert((others0[done as int]).reqs().contains(x));
                        } else {
                            if !first0.reqs().contains(x) {
                                let k = choose|k: int| 0 <= k < done
                                    && (#[trigger] others0[k]).reqs().contains(x);
                                assert((others0[k]).reqs().contains(x));
                            }
                        }
                    }
                }
                assert(commands@ == seq![first0] + others0.subrange(0, others0.len() - rest@.len()));
            }
        }
        proof {
            assert(others0.subrange(0, others0.len() as int) == others0);
        }
        (commands, acc)
    }

    /// Groups this command with many others into a parallel group that
    /// finishes when all children have finished.
    pub fn along_with_many(self, others: Vec<Command>) -> (r: Command)
        ensures
            r is Parallel,
            r->Parallel_0.children() == seq![self] + others@,
            self.name_known() && (forall|k: int| 0 <= k < others@.len()
                ==> (#[trigger] others@[k]).name_known()) ==> r.name_known(),
            r->Parallel_0.flags().len() == others@.len() + 1,
            forall|i: int| 0 <= i < r->Parallel_0.flags().len()
                ==> !(#[trigger] r->Parallel_0.flags()[i]),
            !r->Parallel_0.is_race(),
            no_dups(r->Parallel_0.reqs_view()),
            r.reqs_known(),
            r.reqs_fixed(),
            self.reqs_known() && (forall|k: int| 0 <= k < others@.len()
                ==> (#[trigger] others@[k]).reqs_known()) ==> {
                &&& forall|x: u8| r.reqs().contains(x) ==> self.reqs().contains(x)
                    || exists|k: int| 0 <= k < others@.len()
                        && (#[trigger] others@[k]).reqs().contains(x)
                &&& forall|x: u8| self.reqs().contains(x) ==> r.reqs().contains(x)
                &&& forall|k: int, x: u8| 0 <= k < others@.len()
                    && #[trigger] others@[k].reqs().contains(x) ==> r.reqs().contains(x)
            },
    {
        let (commands, requirements) = self.collect_group(others);
        let finished = vec![false; commands.len()];
        let group = ParallelBuiltCommand { commands, finished, requirements, race: false };
        Command::Parallel(group)
    }

    /// Groups this command with many others into a racing parallel group
    /// that finishes as soon as any child has finished.
    pub fn race_with_many(self, others: Vec<Command>) -> (r: Command)
        ensures
            r is Parallel,
            r->Parallel_0.children() == seq![self] + others@,
            self.name_known() && (forall|k: int| 0 <= k < others@.len()
                ==> (#[trigger] others@[k]).name_known()) ==> r.name_known(),
            r->Parallel_0.flags().len() == others@.len() + 1,
            forall|i: int| 0 <= i < r->Parallel_0.flags().len()
                ==> !(#[trigger] r->Parallel_0.flags()[i]),
            r->Parallel_0.is_race(),
            no_dups(r->Parallel_0.reqs_view()),
            r.reqs_known(),
            r.reqs_fixed(),
            self.reqs_known() && (forall|k: int| 0 <= k < others@.len()
                ==> (#[trigger] others@[k]).reqs_known()) ==> {
                &&& forall|x: u8| r.reqs().contains(x) ==> self.reqs().contains(x)
                    || exists|k: int| 0 <= k < others@.len()
                        && (#[trigger] others@[k]).reqs().contains(x)
                &&& forall|x: u8| self.reqs().contains(x) ==> r.reqs().contains(x)
                &&& forall|k: int, x: u8| 0 <= k < others@.len()
                    && #[trigger] others@[k].reqs().contains(x) ==> r.reqs().contains(x)
            },
    {
        let (commands, requirements) = self.collect_group(others);
        let finished = vec![false; commands.len()];
        let group = ParallelBuiltCommand { commands, finished, requirements, race: true };
        Command::Parallel(group)
    }

    /// Chains this command before many others into one sequential command.
    pub fn and_then_many(self, others: Vec<Command>) -> (r: Command)
        ensures
            r is Sequential,
            r->Sequential_0.children() == seq![self] + others@,
            self.name_known() && (forall|k: int| 0 <= k < others@.len()
                ==> (#[trigger] others@[k]).name_known()) ==> r.name_known(),
            r->Sequential_0.index() == 0,
            no_dups(r->Sequential_0.reqs_view()),
            r.reqs_known(),
            r.reqs_fixed(),
            self.reqs_known() && (forall|k: int| 0 <= k < others@.len()
                ==> (#[trigger] others@[k]).reqs_known()) ==> {
                &&& forall|x: u8| r.reqs().contains(x) ==> self.reqs().contains(x)
                    || exists|k: int| 0 <= k < others@.len()
                        && (#[trigger] others@[k]).reqs().contains(x)
                &&& forall|x: u8| self.reqs().contains(x) ==> r.reqs().contains(x)
                &&& forall|k: int, x: u8| 0 <= k < others@.len()
                    && #[trigger] others@[k].reqs().contains(x) ==> r.reqs().contains(x)
            },
    {
        let (commands, requirements) = self.collect_group(others);
        let sq = SequentialCommand { commands, current: 0, requirements };
        Command::Sequential(sq)
    }

    /// Wraps this command under a new diagnostic name.
    pub fn with_name(self, name: &str) -> (r: Command)
        ensures
            r is Named,
            r->Named_0.label() == name@,
            r->Named_0.inner() == self,
            r.reqs() == self.reqs(),
            r.reqs_known() == self.reqs_known(),
            r.reqs_fixed() == self.reqs_fixed(),
            r.name_known(),
            r.name_spec() == name@,
    {
        let named = NamedCommand { name: name.to_owned(), command: Box::new(self) };
        Command::Named(named)
    }

    /// Builds a command that finishes once the given number of microseconds
    /// has elapsed since its `init`; it has no requirements and does not
    /// hold this command.
    pub fn wait_for(self, duration_micros: u64) -> (r: Command)
        ensures
            r is Wait,
            !r->Wait_0.started(),
            r->Wait_0.duration() == duration_micros,
            r.reqs() == Seq::<u8>::empty(),
            r.reqs_known(),
            r.reqs_fixed(),
            r.name_known(),
            r.name_spec() == timed_name_of(duration_micros),
    {
        let w = WaitCommand { start_instant: None, duration_micros };
        Command::Wait(w)
    }

    /// Wraps a user-supplied lifecycle implementation.
    pub fn custom(command: Box<dyn CommandTrait>) -> (r: Command)
        ensures
            r is Custom,
            !r.reqs_known(),
            r.reqs_fixed(),
            !r.name_known(),
    {
        Command::custom_wrapped(SuppliedCommand(command))
    }

    fn custom_wrapped(wrapped: SuppliedCommand) -> (r: Command)
        ensures
            r is Custom,
            !r.reqs_known(),
            r.reqs_fixed(),
            !r.name_known(),
    {
        Command::Custom(wrapped)
    }

    /// Builds a command whose wrapped command is constructed by the factory
    /// on first `init`.
    pub fn proxy(command_supplier: Box<dyn CommandSupplier>) -> (r: Command)
        ensures
            r is Proxy,
            !r->Proxy_0.constructed(),
            r.reqs() == Seq::<u8>::empty(),
            r.reqs_known(),
            !r.reqs_fixed(),
            r.name_known(),
    {
        Command::proxy_unbuilt(ProxyCommand { command_supplier, command: None })
    }

    fn proxy_unbuilt(p: ProxyCommand) -> (r: Command)
        requires
            !p.constructed(),
        ensures
            r is Proxy,
            !r->Proxy_0.constructed(),
            r.reqs() == Seq::<u8>::empty(),
            r.reqs_known(),
            !r.reqs_fixed(),
            r.name_known(),
    {
        Command::Proxy(p)
    }
}

impl CommandTrait for Command {
    fn init(&mut self)
        ensures
            final(self).kind() == old(self).kind(),
            old(self).reqs_fixed() ==> final(self).reqs_fixed(),
            old(self).reqs_fixed() ==> final(self).reqs() == old(self).reqs(),
    {
        let mut tmp = Command::empty();
        core::mem::swap(self, &mut tmp);
        let (mut done, _) = tmp.lifecycle(LifecycleOp::Init);
        core::mem::swap(self, &mut done);
    }

    fn periodic(&mut self)
        ensures
            final(self).kind() == old(self).kind(),
            old(self).reqs_fixed() ==> final(self).reqs_fixed(),
            old(self).reqs_fixed() ==> final(self).reqs() == old(self).reqs(),
    {
        let mut tmp = Command::empty();
        core::mem::swap(self, &mut tmp);
        let (mut done, _) = tmp.lifecycle(LifecycleOp::Periodic);
        core::mem::swap(self, &mut done);
    }

    fn end(&mut self, interrupted: bool)
        ensures
            final(self).kind() == old(self).kind(),
            old(self).reqs_fixed() ==> final(self).reqs_fixed(),
            old(self).reqs_fixed() ==> final(self).reqs() == old(self).reqs(),
    {
        let mut tmp = Command::empty();
        core::mem::swap(self, &mut tmp);
        let (mut done, _) = tmp.lifecycle(LifecycleOp::End(interrupted));
        core::mem::swap(self, &mut done);
    }

    fn is_finished(&mut self) -> (r: bool)
        ensures
            final(self).kind() == old(self).kind(),
            old(self).reqs_fixed() ==> final(self).reqs_fixed(),
            old(self).reqs_fixed() ==> final(self).reqs() == old(self).reqs(),
            *old(self) is Parallel ==> *final(self) == *old(self)
                && r == (if (*old(self))->Parallel_0.is_race() {
                    any_set((*old(self))->Parallel_0.flags())
                } else {
                    all_set((*old(self))->Parallel_0.flags())
                }),
            *old(self) is Sequential ==> *final(self) == *old(self)
                && r == ((*old(self))->Sequential_0.index()
                    >= (*old(self))->Sequential_0.children().len()),
    {
        let mut tmp = Command::empty();
        core::mem::swap(self, &mut tmp);
        let (mut done, fin) = tmp.lifecycle(LifecycleOp::IsFinished);
        core::mem::swap(self, &mut done);
        fin
    }

    fn get_requirements(&self) -> (r: Vec<u8>)
        ensures
            self.reqs_known() ==> r@ == self.reqs(),
    {
        self.requirements_vec()
    }

    fn get_name(&self) -> (r: String)
        ensures
            self.name_known() ==> r@ == self.name_spec(),
    {
        self.name_of()
    }
}

impl Default for Command {
    fn default() -> (r: Command)
        ensures
            r is Simple,
            r.reqs() == Seq::<u8>::empty(),
            r.reqs_known(),
            r.reqs_fixed(),
            r.name_known(),
    {
        Command::empty()
    }
}

/// Joins the children's names with `sep`, as the composite commands
/// derive their diagnostic names.
#[verifier::loop_isolation(false)]
fn join_names(commands: &Vec<Command>, sep: &str) -> (r: String)
    ensures
        (forall|i: int| 0 <= i < commands@.len()
            ==> (#[trigger] commands@[i]).name_known())
            ==> r@ == join_names_spec(commands@, sep@),
{
    let ghost known = forall|i: int| 0 <= i < commands@.len()
        ==> (#[trigger] commands@[i]).name_known();
    let mut joined = String::new();
    let mut i: usize = 0;
    while i < commands.len()
        invariant
            i <= commands@.len(),
            known ==> joined@ == join_names_spec(commands@.subrange(0, i as int), sep@),
        decreases commands@.len() - i,
    {
        if i > 0 {
            joined = concat2(joined.as_str(), sep);
        }
        let child_name = commands[i].name_of();
        joined = concat2(joined.as_str(), child_name.as_str());
        proof {
            if known {
                assert(commands@[i as int].name_known());
                lemma_join_snoc(commands@, sep@, i as int);
            }
        }
        i += 1;
    }
    proof {
        if known {
            assert(commands@.subrange(0, commands@.len() as int) =~= commands@);
        }
    }
    joined
}

impl CommandTrait for ParallelBuiltCommand {
    fn init(&mut self)
        ensures
            final(self).flags() == old(self).flags(),
            final(self).reqs_view() == old(self).reqs_view(),
            final(self).is_race() == old(self).is_race(),
            final(self).children().len() == old(self).children().len(),
    {
        let mut tmp = ParallelBuiltCommand {
            commands: Vec::new(),
            finished: Vec::new(),
            requirements: Vec::new(),
            race: false,
        };
        core::mem::swap(self, &mut tmp);
        let (done, _) = Command::Parallel(tmp).lifecycle(LifecycleOp::Init);
        match done {
            Command::Parallel(g) => {
                let mut g = g;
                core::mem::swap(self, &mut g);
            }
            _ => {
                proof {
                    assert(false);
                }
            }
        }
    }

    fn periodic(&mut self)
        ensures
            final(self).reqs_view() == old(self).reqs_view(),
            final(self).is_race() == old(self).is_race(),
            final(self).children().len() == old(self).children().len(),
            final(self).flags().len() == old(self).flags().len(),
            forall|i: int| 0 <= i < old(self).flags().len() && old(self).flags()[i]
                ==> #[trigger] final(self).flags()[i],
            forall|i: int| 0 <= i < old(self).flags().len() && old(self).flags()[i]
                ==> #[trigger] final(self).children()[i] == old(self).children()[i],
    {
        let mut tmp = ParallelBuiltCommand {
            commands: Vec::new(),
            finished: Vec::new(),
            requirements: Vec::new(),
            race: false,
        };
        core::mem::swap(self, &mut tmp);
        let (done, _) = Command::Parallel(tmp).lifecycle(LifecycleOp::Periodic);
        match done {
            Command::Parallel(g) => {
                let mut g = g;
                core::mem::swap(self, &mut g);
            }
            _ => {
                proof {
                    assert(false);
                }
            }
        }
    }

    fn end(&mut self, interrupted: bool)
        ensures
            final(self).reqs_view() == old(self).reqs_view(),
            final(self).is_race() == old(self).is_race(),
            final(self).children().len() == old(self).children().len(),
            final(self).flags().len() == old(self).flags().len(),
            interrupted ==> all_set(final(self).flags()),
            forall|i: int| 0 <= i < old(self).flags().len() && old(self).flags()[i]
                ==> #[trigger] final(self).children()[i] == old(self).children()[i],
            !interrupted ==> final(self).children() == old(self).children()
                && final(self).flags() == old(self).flags(),
    {
        let mut tmp = ParallelBuiltCommand {
            commands: Vec::new(),
            finished: Vec::new(),
            requirements: Vec::new(),
            race: false,
        };
        core::mem::swap(self, &mut tmp);
        let (done, _) = Command::Parallel(tmp).lifecycle(LifecycleOp::End(interrupted));
        match done {
            Command::Parallel(g) => {
                let mut g = g;
                core::mem::swap(self, &mut g);
            }
            _ => {
                proof {
                    assert(false);
                }
            }
        }
    }

    fn is_finished(&mut self) -> (r: bool)
        ensures
            *final(self) == *old(self),
            r == (if old(self).is_race() {
                any_set(old(self).flags())
            } else {
                all_set(old(self).flags())
            }),
    {
        let mut tmp = ParallelBuiltCommand {
            commands: Vec::new(),
            finished: Vec::new(),
            requirements: Vec::new(),
            race: false,
        };
        core::mem::swap(self, &mut tmp);
        let (done, fin) = Command::Parallel(tmp).lifecycle(LifecycleOp::IsFinished);
        match done {
            Command::Parallel(g) => {
                let mut g = g;
                core::mem::swap(self, &mut g);
            }
            _ => {
                proof {
                    assert(false);
                }
            }
        }
        fin
    }

    fn get_requirements(&self) -> (r: Vec<u8>)
        ensures
            r@ == self.reqs_view(),
    {
        self.requirements.clone()
    }

    fn get_name(&self) -> (r: String)
        ensures
            (forall|i: int| 0 <= i < self.children().len()
                ==> (#[trigger] self.children()[i]).name_known())
                ==> r@ == join_names_spec(self.children(), ","@),
    {
        join_names(&self.commands, ",")
    }
}

impl CommandTrait for SequentialCommand {
    fn init(&mut self)
        ensures
            final(self).index() == old(self).index(),
            final(self).reqs_view() == old(self).reqs_view(),
            final(self).children().len() == old(self).children().len(),
    {
        let mut tmp = SequentialCommand { commands: Vec::new(), current: 0, requirements: Vec::new() };
        core::mem::swap(self, &mut tmp);
        let (done, _) = Command::Sequential(tmp).lifecycle(LifecycleOp::Init);
        match done {
            Command::Sequential(g) => {
                let mut g = g;
                core::mem::swap(self, &mut g);
            }
            _ => {
                proof {
                    assert(false);
                }
            }
        }
    }

    fn periodic(&mut self)
        ensures
            final(self).reqs_view() == old(self).reqs_view(),
            final(self).children().len() == old(self).children().len(),
            old(self).index() <= final(self).index() <= old(self).index() + 1,
            final(self).index() <= final(self).children().len(),
            forall|i: int| 0 <= i < old(self).children().len() && i != old(self).index()
                && i != old(self).index() + 1
                ==> #[trigger] final(self).children()[i] == old(self).children()[i],
    {
        let mut tmp = SequentialCommand { commands: Vec::new(), current: 0, requirements: Vec::new() };
        core::mem::swap(self, &mut tmp);
        let (done, _) = Command::Sequential(tmp).lifecycle(LifecycleOp::Periodic);
        match done {
            Command::Sequential(g) => {
                let mut g = g;
                core::mem::swap(self, &mut g);
            }
            _ => {
                proof {
                    assert(false);
                }
            }
        }
    }

    fn end(&mut self, interrupted: bool)
        ensures
            final(self).index() == old(self).index(),
            final(self).reqs_view() == old(self).reqs_view(),
            final(self).children().len() == old(self).children().len(),
            forall|i: int| 0 <= i < old(self).children().len() && i != old(self).index()
                ==> #[trigger] final(self).children()[i] == old(self).children()[i],
    {
        let mut tmp = SequentialCommand { commands: Vec::new(), current: 0, requirements: Vec::new() };
        core::mem::swap(self, &mut tmp);
        let (done, _) = Command::Sequential(tmp).lifecycle(LifecycleOp::End(interrupted));
        match done {
            Command::Sequential(g) => {
                let mut g = g;
                core::mem::swap(self, &mut g);
            }
            _ => {
                proof {
                    assert(false);
                }
            }
        }
    }

    fn is_finished(&mut self) -> (r: bool)
        ensures
            *final(self) == *old(self),
            r == (old(self).index() >= old(self).children().len()),
    {
        let mut tmp = SequentialCommand { commands: Vec::new(), current: 0, requirements: Vec::new() };
        core::mem::swap(self, &mut tmp);
        let (done, fin) = Command::Sequential(tmp).lifecycle(LifecycleOp::IsFinished);
        match done {
            Command::Sequential(g) => {
                let mut g = g;
                core::mem::swap(self, &mut g);
            }
            _ => {
                proof {
                    assert(false);
                }
            }
        }
        fin
    }

    fn get_requirements(&self) -> (r: Vec<u8>)
        ensures
            r@ == self.reqs_view(),
    {
        self.requirements.clone()
    }

    fn get_name(&self) -> (r: String)
        ensures
            (forall|i: int| 0 <= i < self.children().len()
                ==> (#[trigger] self.children()[i]).name_known())
                ==> r@ == join_names_spec(self.children(), "->"@),
    {
        join_names(&self.commands, "->")
    }
}

impl CommandTrait for NamedCommand {
    fn init(&mut self)
        ensures
            final(self).label() == old(self).label(),
    {
        let mut tmp = NamedCommand { name: String::new(), command: Box::new(Command::empty()) };
        core::mem::swap(self, &mut tmp);
        let (done, _) = Command::Named(tmp).lifecycle(LifecycleOp::Init);
        match done {
            Command::Named(n) => {
                let mut n = n;
                core::mem::swap(self, &mut n);
            }
            _ => {
                proof {
                    assert(false);
                }
            }
        }
    }

    fn periodic(&mut self)
        ensures
            final(self).label() == old(self).label(),
    {
        let mut tmp = NamedCommand { name: String::new(), command: Box::new(Command::empty()) };
        core::mem::swap(self, &mut tmp);
        let (done, _) = Command::Named(tmp).lifecycle(LifecycleOp::Periodic);
        match done {
            Command::Named(n) => {
                let mut n = n;
                core::mem::swap(self, &mut n);
            }
            _ => {
                proof {
                    assert(false);
                }
            }
        }
    }

    fn end(&mut self, interrupted: bool)
        ensures
            final(self).label() == old(self).label(),
    {
        let mut tmp = NamedCommand { name: String::new(), command: Box::new(Command::empty()) };
        core::mem::swap(self, &mut tmp);
        let (done, _) = Command::Named(tmp).lifecycle(LifecycleOp::End(interrupted));
        match done {
            Command::Named(n) => {
                let mut n = n;
                core::mem::swap(self, &mut n);
            }
            _ => {
                proof {
                    assert(false);
                }
            }
        }
    }

    fn is_finished(&mut self) -> (r: bool)
        ensures
            final(self).label() == old(self).label(),
    {
        let mut tmp = NamedCommand { name: String::new(), command: Box::new(Command::empty()) };
        core::mem::swap(self, &mut tmp);
        let (done, fin) = Command::Named(tmp).lifecycle(LifecycleOp::IsFinished);
        match done {
            Command::Named(n) => {
                let mut n = n;
                core::mem::swap(self, &mut n);
            }
            _ => {
                proof {
                    assert(false);
                }
            }
        }
        fin
    }

    fn get_requirements(&self) -> (r: Vec<u8>)
        ensures
            self.inner().reqs_known() ==> r@ == self.inner().reqs(),
    {
        (*self.command).requirements_vec()
    }

    fn get_name(&self) -> (r: String)
        ensures
            r@ == self.label(),
    {
        self.name.clone()
    }
}

impl CommandTrait for WaitCommand {
    fn init(&mut self)
        ensures
            final(self).started(),
            final(self).duration() == old(self).duration(),
    {
        self.start_instant = Some(instant_now());
    }

    fn periodic(&mut self)
        ensures
            *final(self) == *old(self),
    {
    }

    fn end(&mut self, _interrupted: bool)
        ensures
            *final(self) == *old(self),
    {
    }

    fn is_finished(&mut self) -> (r: bool)
        ensures
            *final(self) == *old(self),
            !old(self).started() ==> r == false,
    {
        match &self.start_instant {
            Some(s) => elapsed_micros(s) >= self.duration_micros,
            None => false,
        }
    }

    fn get_requirements(&self) -> (r: Vec<u8>)
        ensures
            r@ == Seq::<u8>::empty(),
    {
        Vec::new()
    }

    fn get_name(&self) -> (r: String)
        ensures
            r@ == timed_name_of(self.duration()),
    {
        timed_name(self.duration_micros)
    }
}

impl CommandTrait for ProxyCommand {
    fn init(&mut self)
        ensures
            final(self).constructed(),
    {
        let cur = self.command.take();
        match cur {
            Some(c) => {
                let (c2, _) = (*c).lifecycle(LifecycleOp::Init);
                self.command = Some(Box::new(c2));
            }
            None => {
                let mut built = self.command_supplier.call();
                built.0.init();
                let constructed = Command::Custom(built);
                self.command = Some(Box::new(constructed));
            }
        }
    }

    fn periodic(&mut self)
        ensures
            old(self).constructed() ==> final(self).constructed(),
    {
        let cur = self.command.take();
        match cur {
            Some(c) => {
                let (c2, _) = (*c).lifecycle(LifecycleOp::Periodic);
                self.command = Some(Box::new(c2));
            }
            None => {}
        }
    }

    fn end(&mut self, interrupted: bool)
        ensures
            old(self).constructed() ==> final(self).constructed(),
    {
        let cur = self.command.take();
        match cur {
            Some(c) => {
                let (c2, _) = (*c).lifecycle(LifecycleOp::End(interrupted));
                self.command = Some(Box::new(c2));
            }
            None => {}
        }
    }

    fn is_finished(&mut self) -> (r: bool)
        ensures
            old(self).constructed() ==> final(self).constructed(),
            !old(self).constructed() ==> r == false,
    {
        let cur = self.command.take();
        match cur {
            Some(c) => {
                let (c2, fin) = (*c).lifecycle(LifecycleOp::IsFinished);
                self.command = Some(Box::new(c2));
                fin
            }
            None => false,
        }
    }

    fn get_requirements(&self) -> (r: Vec<u8>)
        ensures
            !self.constructed() ==> r@ == Seq::<u8>::empty(),
    {
        match &self.command {
            Some(c) => (*c).requirements_vec(),
            None => Vec::new(),
        }
    }

    fn get_name(&self) -> (r: String)
        ensures
            self.name_delegate_known() ==> r@ == self.name_delegate(),
    {
        match &self.command {
            Some(c) => (*c).name_of(),
            None => "unnamed command".to_owned(),
        }
    }
}

} // verus!
