//! The way from the `create` verb to a container that is supervised.
use crate::cli::device;
use crate::cli::device::DeviceRefError;
use crate::cli::symlink;
use crate::cli::symlink::SymlinkError;
use crate::cli::{DeviceRef, Symlink};
use crate::create::annotations;
use crate::create::annotations::AnnotationError;
use crate::path;
use crate::path::PathBuf;
use crate::runc::cli;
use crate::runc::cli::{CreateOptions, GlobalOptions};
use crate::runc::config;
use crate::runc::config::Config;
use crate::runc::container;
use crate::runc::container::{Container, ContainerError, SetupStep};
use crate::runc::state;
use crate::runc::state::State;
use crate::text;
use vstd::prelude::*;

verus! {

/// Why a container is not created.
#[derive(Debug)]
pub enum CreateError {
    Annotation(AnnotationError),
    Device(DeviceRefError),
    Symlink(SymlinkError),
    Container(ContainerError),
}

pub enum CreateErrorView {
    Annotation(annotations::AnnotationErrorView),
    Device(device::DeviceRefErrorView),
    Symlink(symlink::SymlinkErrorView),
    Container(ContainerError),
}

impl View for CreateError {
    type V = CreateErrorView;

    open spec fn view(&self) -> CreateErrorView {
        match self {
            CreateError::Annotation(e) => CreateErrorView::Annotation(e@),
            CreateError::Device(e) => CreateErrorView::Device(e@),
            CreateError::Symlink(e) => CreateErrorView::Symlink(e@),
            CreateError::Container(e) => CreateErrorView::Container(*e),
        }
    }
}

/// What is said of an error.
pub open spec fn error_message(e: CreateErrorView) -> Seq<char> {
    match e {
        CreateErrorView::Annotation(e) => annotations::error_message(e),
        CreateErrorView::Device(e) => device::error_message(e),
        CreateErrorView::Symlink(e) => symlink::error_message(e),
        CreateErrorView::Container(e) => e.spec_message(),
    }
}

/// What to do next, and what to hand back once it is done.
#[derive(Debug)]
pub enum CreateStep {
    /// Read the config. See [`Creation::config_read`].
    ReadConfig(PathBuf),
    /// Resolve a root device. See [`Creation::root_resolved`].
    Resolve(DeviceRef),
    /// Switch the logger to syslog: what is logged from here on is not forwarded by container
    /// managers. See [`Creation::logger_switched`].
    SwitchLogger,
    /// Have `runc` create the container. See [`Creation::runc_exited`].
    RunRunc,
    /// Read the state of the container. See [`Creation::state_read`].
    ReadState(PathBuf),
    /// Take a step of taking control of the container. See [`Creation::set_up`].
    SetUp(SetupStep),
    /// Redirect all of stdio, since whoever started this process waits for it to be closed. See
    /// [`Creation::stdio_detached`].
    DetachStdio,
    /// Supervise the container.
    Supervise,
    /// Exit with the given code.
    Exit(i32),
    /// Give up.
    Fail(CreateError),
}

pub enum CreateStepView {
    ReadConfig(Seq<u8>),
    Resolve(device::DeviceRefView),
    SwitchLogger,
    RunRunc,
    ReadState(Seq<u8>),
    SetUp(container::SetupStepView),
    DetachStdio,
    Supervise,
    Exit(i32),
    Fail(CreateErrorView),
}

impl View for CreateStep {
    type V = CreateStepView;

    open spec fn view(&self) -> CreateStepView {
        match self {
            CreateStep::ReadConfig(p) => CreateStepView::ReadConfig(p@),
            CreateStep::Resolve(r) => CreateStepView::Resolve(r@),
            CreateStep::SwitchLogger => CreateStepView::SwitchLogger,
            CreateStep::RunRunc => CreateStepView::RunRunc,
            CreateStep::ReadState(p) => CreateStepView::ReadState(p@),
            CreateStep::SetUp(s) => CreateStepView::SetUp(s@),
            CreateStep::DetachStdio => CreateStepView::DetachStdio,
            CreateStep::Supervise => CreateStepView::Supervise,
            CreateStep::Exit(code) => CreateStepView::Exit(*code),
            CreateStep::Fail(e) => CreateStepView::Fail(e@),
        }
    }
}

/// What was asked for last.
#[derive(Debug, Clone, Copy, PartialEq, Eq, Structural)]
pub enum Phase {
    Config,
    Roots,
    Logger,
    Runc,
    State,
    SetUp,
    Stdio,
    Supervise,
    /// Nothing more.
    Over,
}

/// A container that is being created.
#[derive(Debug)]
pub struct Creation {
    phase: Phase,
    /// `runc`'s state directory.
    root: PathBuf,
    container_id: String,
    config: Option<Config>,
    /// The root devices that are yet to be resolved.
    refs: Vec<Result<DeviceRef, DeviceRefError>>,
    /// The sysfs directories of the root devices.
    devices: Vec<PathBuf>,
    symlinks: Vec<Symlink>,
    sysfs: bool,
    /// The steps of taking control of the container that are yet to be taken.
    setup: Vec<SetupStep>,
    container: Option<Container>,
}

pub struct CreationView {
    pub phase: Phase,
    pub root: Seq<u8>,
    pub container_id: Seq<char>,
    pub config: Option<config::ConfigView>,
    pub refs: Seq<Result<device::DeviceRefView, device::DeviceRefErrorView>>,
    pub devices: Seq<Seq<u8>>,
    pub symlinks: Seq<symlink::SymlinkView>,
    pub sysfs: bool,
    pub setup: Seq<container::SetupStepView>,
    pub container: Option<container::ContainerView>,
}

pub open spec fn config_view(c: Option<Config>) -> Option<config::ConfigView> {
    match c {
        Some(c) => Some(c@),
        None => None,
    }
}

pub open spec fn refs_view(refs: Seq<Result<DeviceRef, DeviceRefError>>) -> Seq<
    Result<device::DeviceRefView, device::DeviceRefErrorView>,
> {
    refs.map_values(|d: Result<DeviceRef, DeviceRefError>| annotations::device_view(d))
}

impl View for Creation {
    type V = CreationView;

    closed spec fn view(&self) -> CreationView {
        CreationView {
            phase: self.phase,
            root: self.root@,
            container_id: self.container_id@,
            config: config_view(self.config),
            refs: refs_view(self.refs@),
            devices: self.devices.deep_view(),
            symlinks: self.symlinks@.map_values(|l: Symlink| l@),
            sysfs: self.sysfs,
            setup: container::setup_views(self.setup@),
            container: container::container_view(self.container),
        }
    }
}

/// A container that is under control, with all that supervising it takes.
#[derive(Debug)]
pub struct Supervised {
    pub container: Container,
    /// The sysfs directories of the root devices.
    pub devices: Vec<PathBuf>,
    pub symlinks: Vec<Symlink>,
    pub sysfs: bool,
}

pub struct SupervisedView {
    pub container: container::ContainerView,
    pub devices: Seq<Seq<u8>>,
    pub symlinks: Seq<symlink::SymlinkView>,
    pub sysfs: bool,
}

impl View for Supervised {
    type V = SupervisedView;

    open spec fn view(&self) -> SupervisedView {
        SupervisedView {
            container: self.container@,
            devices: self.devices.deep_view(),
            symlinks: self.symlinks@.map_values(|l: Symlink| l@),
            sysfs: self.sysfs,
        }
    }
}

/// Where creation starts.
pub open spec fn begun(root: Seq<u8>, id: Seq<char>) -> CreationView {
    CreationView {
        phase: Phase::Config,
        root,
        container_id: id,
        config: None,
        refs: seq![],
        devices: seq![],
        symlinks: seq![],
        sysfs: false,
        setup: seq![],
        container: None,
    }
}

/// What to do once all root devices are resolved: see to the other annotations.
pub open spec fn configured(c: CreationView) -> (CreationView, CreateStepView) {
    let a = (c.config->0).annotations;
    match annotations::symlinks_of(a) {
        Err(e) => (
            CreationView { phase: Phase::Over, ..c },
            CreateStepView::Fail(CreateErrorView::Symlink(e)),
        ),
        Ok(links) => match annotations::sysfs_of(a) {
            Err(e) => (
                CreationView { phase: Phase::Over, ..c },
                CreateStepView::Fail(CreateErrorView::Annotation(e)),
            ),
            Ok(rw) => (
                CreationView { phase: Phase::Logger, symlinks: links, sysfs: rw, ..c },
                CreateStepView::SwitchLogger,
            ),
        },
    }
}

/// The next root device to resolve. One that cannot be parsed matters only once those in front of
/// it are resolved.
pub open spec fn next_root(c: CreationView) -> (CreationView, CreateStepView) {
    if c.refs.len() > 0 {
        match c.refs[0] {
            Ok(r) => (
                CreationView { phase: Phase::Roots, refs: c.refs.drop_first(), ..c },
                CreateStepView::Resolve(r),
            ),
            Err(e) => (
                CreationView { phase: Phase::Over, refs: c.refs.drop_first(), ..c },
                CreateStepView::Fail(CreateErrorView::Device(e)),
            ),
        }
    } else {
        configured(c)
    }
}

/// What to do once the config is read.
pub open spec fn after_config(c: CreationView, config: config::ConfigView) -> (
    CreationView,
    CreateStepView,
) {
    let c = CreationView { config: Some(config), ..c };
    match annotations::device_list(config.annotations) {
        None => (
            CreationView { phase: Phase::Over, ..c },
            CreateStepView::Fail(
                CreateErrorView::Annotation(annotations::AnnotationErrorView::NoDevices),
            ),
        ),
        Some(list) => next_root(
            CreationView { refs: annotations::devices_parsed(list), ..c },
        ),
    }
}

/// What to do once `runc` has exited: without success, its exit code is passed on.
pub open spec fn after_runc(c: CreationView, success: bool, code: Option<i32>) -> (
    CreationView,
    CreateStepView,
) {
    if success {
        (
            CreationView { phase: Phase::State, ..c },
            CreateStepView::ReadState(state::state_path(c.root, c.container_id)),
        )
    } else {
        (CreationView { phase: Phase::Over, ..c }, CreateStepView::Exit(cli::passed_on(code)))
    }
}

/// What to do once the logger is switched.
pub open spec fn after_logger(c: CreationView) -> (CreationView, CreateStepView) {
    (CreationView { phase: Phase::Runc, ..c }, CreateStepView::RunRunc)
}

/// What to do once stdio is redirected.
pub open spec fn after_stdio(c: CreationView) -> (CreationView, CreateStepView) {
    (CreationView { phase: Phase::Supervise, ..c }, CreateStepView::Supervise)
}

/// What is handed over in the end.
pub open spec fn handed_over(c: CreationView) -> SupervisedView {
    SupervisedView {
        container: c.container->0,
        devices: c.devices,
        symlinks: c.symlinks,
        sysfs: c.sysfs,
    }
}

/// The next step of taking control of the container.
pub open spec fn next_setup(c: CreationView) -> (CreationView, CreateStepView) {
    if c.setup.len() > 0 {
        match c.setup[0] {
            container::SetupStepView::Fail(e) => (
                CreationView { phase: Phase::Over, setup: c.setup.drop_first(), ..c },
                CreateStepView::Fail(CreateErrorView::Container(e)),
            ),
            step => (
                CreationView { phase: Phase::SetUp, setup: c.setup.drop_first(), ..c },
                CreateStepView::SetUp(step),
            ),
        }
    } else {
        (CreationView { phase: Phase::Stdio, ..c }, CreateStepView::DetachStdio)
    }
}

/// What to do once the state is read.
pub open spec fn after_state(c: CreationView, state: State) -> (CreationView, CreateStepView) {
    next_setup(
        CreationView {
            setup: container::setup_steps(state),
            container: container::container_of(c.config->0, state),
            ..c
        },
    )
}

/// Whether everything that is configured is known.
pub open spec fn is_configured(phase: Phase) -> bool {
    !(phase is Config) && !(phase is Roots) && !(phase is Over)
}

impl CreationView {
    /// The root devices that are configured.
    pub open spec fn roots(self) -> Seq<
        Result<device::DeviceRefView, device::DeviceRefErrorView>,
    > {
        annotations::devices_parsed(
            annotations::device_list((self.config->0).annotations)->0,
        )
    }

    /// What holds from one step to the next.
    ///
    /// * By the time `runc` is run, every root device has been resolved, and the symlinks and sysfs
    ///   are as configured.
    /// * By the time the container is supervised, control of it has been taken.
    pub open spec fn wf(self) -> bool {
        &&& self.phase is Config ==> self.devices.len() == 0
        &&& !(self.phase is Config) && !(self.phase is Over) ==> self.config is Some
            && annotations::device_list((self.config->0).annotations) is Some
        &&& self.phase is Roots ==> {
            &&& self.refs.len() < self.roots().len()
            &&& self.devices.len() + 1 + self.refs.len() == self.roots().len()
            &&& self.refs == self.roots().skip(self.roots().len() - self.refs.len())
            &&& forall|i: int|
                0 <= i < self.roots().len() - self.refs.len() ==> #[trigger] self.roots()[i] is Ok
        }
        &&& is_configured(self.phase) ==> {
            &&& self.devices.len() == self.roots().len()
            &&& forall|i: int| 0 <= i < self.roots().len() ==> #[trigger] self.roots()[i] is Ok
            &&& annotations::symlinks_of((self.config->0).annotations) == Ok::<
                Seq<symlink::SymlinkView>,
                symlink::SymlinkErrorView,
            >(self.symlinks)
            &&& annotations::sysfs_of((self.config->0).annotations) == Ok::<
                bool,
                annotations::AnnotationErrorView,
            >(self.sysfs)
        }
        &&& self.phase is SetUp ==> self.container is Some || (self.setup.len() > 0
            && self.setup.last() is Fail)
        &&& self.phase is Stdio || self.phase is Supervise ==> self.container is Some
            && self.setup.len() == 0
    }
}

proof fn lemma_next_root(c: CreationView)
    requires
        c.config is Some,
        annotations::device_list((c.config->0).annotations) is Some,
        c.devices.len() + c.refs.len() == c.roots().len(),
        c.refs == c.roots().skip(c.roots().len() - c.refs.len()),
        forall|i: int|
            0 <= i < c.roots().len() - c.refs.len() ==> #[trigger] c.roots()[i] is Ok,
    ensures
        next_root(c).0.wf(),
{
    let n = next_root(c).0;
    assert(n.roots() == c.roots());
    if c.refs.len() > 0 {
        assert(c.refs[0] == c.roots()[c.roots().len() - c.refs.len()]);
        assert(n.refs =~= n.roots().skip(n.roots().len() - n.refs.len()));
    }
}

proof fn lemma_setup_ends(state: State)
    ensures
        container::setup_steps(state).len() > 0,
        container::can_set_up(state) || container::setup_steps(state).last() is Fail,
{
}

impl CreateError {
    /// The message for the user.
    pub fn message(&self) -> (r: String)
        ensures
            r@ == error_message(self@),
    {
        match self {
            CreateError::Annotation(e) => e.message(),
            CreateError::Device(e) => e.message(),
            CreateError::Symlink(e) => e.message(),
            CreateError::Container(e) => {
                let mut r = String::new();
                text::push_str(&mut r, e.message());
                assert(r@ =~= e.spec_message());
                r
            },
        }
    }
}

impl Creation {
    /// Start creating a container, with what is to be done first.
    pub fn new(global: &GlobalOptions, create: &CreateOptions) -> (r: (Creation, CreateStep))
        ensures
            r.0@ == begun(global.root@, create.container_id@),
            r.1@ == CreateStepView::ReadConfig(config::config_path(create.bundle@)),
            r.0@.wf(),
    {
        let c = Creation {
            phase: Phase::Config,
            root: global.root.clone(),
            container_id: create.container_id.clone(),
            config: None,
            refs: Vec::new(),
            devices: Vec::new(),
            symlinks: Vec::new(),
            sysfs: false,
            setup: Vec::new(),
            container: None,
        };
        assert(c@.refs =~= seq![]);
        assert(c@.devices =~= seq![]);
        assert(c@.symlinks =~= seq![]);
        assert(c@.setup =~= seq![]);
        (c, CreateStep::ReadConfig(Config::from_bundle(&create.bundle)))
    }

    fn fail(&mut self, e: CreateError) -> (r: CreateStep)
        ensures
            final(self)@ == (CreationView { phase: Phase::Over, ..old(self)@ }),
            r@ == CreateStepView::Fail(e@),
    {
        self.phase = Phase::Over;
        CreateStep::Fail(e)
    }

    /// The next step while root devices are resolved.
    fn next_root(&mut self) -> (r: CreateStep)
        requires
            old(self)@.config is Some,
        ensures
            (final(self)@, r@) == next_root(old(self)@),
    {
        let ghost c = self@;
        if self.refs.len() > 0 {
            let first = self.refs.remove(0);
            assert(self@.refs =~= c.refs.drop_first());
            assert(c.refs[0] == annotations::device_view(first));
            return match first {
                Ok(r) => {
                    self.phase = Phase::Roots;
                    CreateStep::Resolve(r)
                },
                Err(e) => self.fail(CreateError::Device(e)),
            };
        }
        let config = match &self.config {
            Some(config) => config,
            None => {
                return CreateStep::Supervise;
            },
        };
        let links = match annotations::symlinks(config) {
            Err(e) => {
                return self.fail(CreateError::Symlink(e));
            },
            Ok(links) => links,
        };
        let rw = match annotations::sysfs(config) {
            Err(e) => {
                return self.fail(CreateError::Annotation(e));
            },
            Ok(rw) => rw,
        };
        self.symlinks = links;
        self.sysfs = rw;
        self.phase = Phase::Logger;
        CreateStep::SwitchLogger
    }

    /// Carry on with the config that was read.
    pub fn config_read(&mut self, config: Config) -> (r: CreateStep)
        requires
            old(self)@.wf(),
            old(self)@.phase is Config,
        ensures
            (final(self)@, r@) == after_config(old(self)@, config@),
            final(self)@.wf(),
    {
        let refs = annotations::root_devices(&config);
        self.config = Some(config);
        match refs {
            Err(e) => self.fail(CreateError::Annotation(e)),
            Ok(refs) => {
                self.refs = refs;
                proof {
                    let c = self@;
                    assert(c.refs =~= c.roots().skip(c.roots().len() - c.refs.len()));
                    lemma_next_root(c);
                }
                self.next_root()
            },
        }
    }

    /// Carry on with the sysfs directory of the root device that was resolved.
    pub fn root_resolved(&mut self, device: PathBuf) -> (r: CreateStep)
        requires
            old(self)@.wf(),
            old(self)@.phase is Roots,
        ensures
            (final(self)@, r@) == next_root(
                CreationView { devices: old(self)@.devices.push(device@), ..old(self)@ },
            ),
            final(self)@.wf(),
    {
        let ghost c = self@;
        let ghost d = device@;
        self.devices.push(device);
        assert(self@.devices =~= c.devices.push(d));
        proof {
            lemma_next_root(self@);
        }
        self.next_root()
    }

    /// Carry on once the logger is switched.
    pub fn logger_switched(&mut self) -> (r: CreateStep)
        requires
            old(self)@.wf(),
            old(self)@.phase is Logger,
        ensures
            final(self)@ == (CreationView { phase: Phase::Runc, ..old(self)@ }),
            r@ == CreateStepView::RunRunc,
            (final(self)@, r@) == after_logger(old(self)@),
            final(self)@.wf(),
    {
        self.phase = Phase::Runc;
        CreateStep::RunRunc
    }

    /// Carry on once `runc` has exited. There is no exit code if a signal ended it.
    pub fn runc_exited(&mut self, success: bool, code: Option<i32>) -> (r: CreateStep)
        requires
            old(self)@.wf(),
            old(self)@.phase is Runc,
        ensures
            (final(self)@, r@) == after_runc(old(self)@, success, code),
            final(self)@.wf(),
    {
        if success {
            self.phase = Phase::State;
            CreateStep::ReadState(
                State::from_root_and_id(&self.root, self.container_id.as_str()),
            )
        } else {
            self.phase = Phase::Over;
            CreateStep::Exit(cli::exit_code(code))
        }
    }

    /// The next step while control of the container is taken.
    fn next_setup(&mut self) -> (r: CreateStep)
        ensures
            (final(self)@, r@) == next_setup(old(self)@),
    {
        let ghost c = self@;
        if self.setup.len() > 0 {
            let first = self.setup.remove(0);
            assert(self@.setup =~= c.setup.drop_first());
            assert(c.setup[0] == first@);
            match first {
                SetupStep::Fail(e) => self.fail(CreateError::Container(e)),
                step => {
                    self.phase = Phase::SetUp;
                    CreateStep::SetUp(step)
                },
            }
        } else {
            self.phase = Phase::Stdio;
            CreateStep::DetachStdio
        }
    }

    /// Carry on with the state that was read.
    ///
    /// Control of the container is taken right away, so that it cannot be deleted in between.
    pub fn state_read(&mut self, state: &State) -> (r: CreateStep)
        requires
            old(self)@.wf(),
            old(self)@.phase is State,
        ensures
            (final(self)@, r@) == after_state(old(self)@, *state),
            final(self)@.wf(),
    {
        let (setup, container) = match &self.config {
            Some(config) => Container::new(config, state),
            None => (Vec::new(), None),
        };
        self.setup = setup;
        self.container = container;
        proof {
            lemma_setup_ends(*state);
        }
        self.next_setup()
    }

    /// Carry on once a step of taking control of the container is taken.
    pub fn set_up(&mut self) -> (r: CreateStep)
        requires
            old(self)@.wf(),
            old(self)@.phase is SetUp,
        ensures
            (final(self)@, r@) == next_setup(old(self)@),
            final(self)@.wf(),
    {
        self.next_setup()
    }

    /// Carry on once stdio is redirected.
    pub fn stdio_detached(&mut self) -> (r: CreateStep)
        requires
            old(self)@.wf(),
            old(self)@.phase is Stdio,
        ensures
            final(self)@ == (CreationView { phase: Phase::Supervise, ..old(self)@ }),
            r@ == CreateStepView::Supervise,
            (final(self)@, r@) == after_stdio(old(self)@),
            final(self)@.wf(),
    {
        self.phase = Phase::Supervise;
        CreateStep::Supervise
    }

    /// What was asked for last.
    pub fn phase(&self) -> (r: Phase)
        ensures
            r == self@.phase,
    {
        self.phase
    }

    /// The container, once its state is read and it can be taken control of.
    pub fn container(&self) -> (r: Option<&Container>)
        ensures
            match r {
                Some(c) => self@.container == Some(c@),
                None => self@.container is None,
            },
    {
        match &self.container {
            Some(c) => Some(c),
            None => None,
        }
    }

    /// Hand over the container that was created.
    pub fn finish(self) -> (r: Supervised)
        requires
            self@.wf(),
            self@.phase is Supervise,
        ensures
            self@.container == Some(r@.container),
            r@.devices == self@.devices,
            r@.symlinks == self@.symlinks,
            r@.sysfs == self@.sysfs,
            r@ == handed_over(self@),
    {
        Supervised {
            container: self.container.unwrap(),
            devices: self.devices,
            symlinks: self.symlinks,
            sysfs: self.sysfs,
        }
    }
}

/// `runc` is run only if everything is configured as it should be: each root device in the list can
/// be parsed and was resolved, and so can the symlinks and the sysfs setting.
pub proof fn runc_needs_valid_config(c: CreationView)
    requires
        c.wf(),
        c.phase is Runc,
    ensures
        annotations::device_list((c.config->0).annotations) is Some,
        c.devices.len() == c.roots().len(),
        forall|i: int| 0 <= i < c.roots().len() ==> #[trigger] c.roots()[i] is Ok,
        annotations::symlinks_of((c.config->0).annotations) is Ok,
        annotations::sysfs_of((c.config->0).annotations) is Ok,
{
}

/// Where `runc` fails, its exit code is passed on and the container is left alone: no step is taken
/// after that.
pub proof fn failed_runc_ends_creation(c: CreationView, code: Option<i32>)
    requires
        c.wf(),
        c.phase is Runc,
    ensures
        after_runc(c, false, code).0.phase is Over,
        after_runc(c, false, code).1 == CreateStepView::Exit(cli::passed_on(code)),
        after_runc(c, false, code).0.container == c.container,
{
}

/// The steps that take control of a container that can be taken control of are all handed out, in
/// order, before stdio is redirected.
pub proof fn setup_is_complete(c: CreationView)
    requires
        c.wf(),
        c.phase is SetUp,
    ensures
        next_setup(c).1 is DetachStdio ==> c.setup.len() == 0 && c.container is Some,
        next_setup(c).1 matches CreateStepView::SetUp(s) ==> c.setup =~= seq![s]
            + next_setup(c).0.setup,
{
}

/// Where resolving root devices leads, with `devices` being handed back one after the other.
pub open spec fn resolving(c: CreationView, devices: Seq<Seq<u8>>) -> (CreationView, CreateStepView)
    decreases devices.len(),
{
    if devices.len() == 0 {
        next_root(c)
    } else {
        let before = resolving(c, devices.drop_last()).0;
        next_root(CreationView { devices: before.devices.push(devices.last()), ..before })
    }
}

/// The root devices are resolved one by one, in the order in which they are listed, and what each is
/// resolved to is kept in that order. One that cannot be parsed ends everything as soon as it is its
/// turn, and not before. Nothing else of what is known changes meanwhile.
pub proof fn root_devices_are_resolved_in_order(c: CreationView, devices: Seq<Seq<u8>>)
    requires
        c.devices.len() == 0,
        devices.len() < c.refs.len(),
        forall|i: int| 0 <= i < devices.len() ==> #[trigger] c.refs[i] is Ok,
    ensures
        ({
            let (next, step) = resolving(c, devices);
            &&& next.devices == devices
            &&& next.refs == c.refs.skip((devices.len() + 1) as int)
            &&& next.config == c.config
            &&& next.root == c.root
            &&& next.container_id == c.container_id
            &&& next.setup == c.setup
            &&& next.container == c.container
            &&& match c.refs[devices.len() as int] {
                Ok(r) => step == CreateStepView::Resolve(r) && next.phase is Roots,
                Err(e) => step == CreateStepView::Fail(CreateErrorView::Device(e))
                    && next.phase is Over,
            }
        }),
    decreases devices.len(),
{
    if devices.len() == 0 {
        assert(c.devices =~= devices);
        assert(c.refs.drop_first() =~= c.refs.skip(1));
    } else {
        let front = devices.drop_last();
        root_devices_are_resolved_in_order(c, front);
        let before = resolving(c, front).0;
        assert(front.push(devices.last()) =~= devices);
        assert(c.refs[front.len() as int] is Ok);
        assert(before.refs[0] == c.refs[devices.len() as int]);
        assert(before.refs.drop_first() =~= c.refs.skip((devices.len() + 1) as int));
    }
}

/// Once all the root devices are resolved, the other annotations are seen to, the symlinks before
/// sysfs, and if there is nothing wrong with them the logger is switched.
pub proof fn other_annotations_come_after_the_roots(c: CreationView, devices: Seq<Seq<u8>>)
    requires
        c.devices.len() == 0,
        c.refs.len() > 0,
        devices.len() == c.refs.len(),
        forall|i: int| 0 <= i < c.refs.len() ==> #[trigger] c.refs[i] is Ok,
    ensures
        ({
            let (next, step) = resolving(c, devices);
            let a = (c.config->0).annotations;
            &&& next.devices == devices
            &&& next.config == c.config
            &&& next.root == c.root
            &&& next.container_id == c.container_id
            &&& match (annotations::symlinks_of(a), annotations::sysfs_of(a)) {
                (Ok(links), Ok(rw)) => step == CreateStepView::SwitchLogger && next.phase is Logger
                    && next.symlinks == links && next.sysfs == rw,
                (Err(e), _) => step == CreateStepView::Fail(CreateErrorView::Symlink(e))
                    && next.phase is Over,
                (Ok(_), Err(e)) => step == CreateStepView::Fail(CreateErrorView::Annotation(e))
                    && next.phase is Over,
            }
        }),
{
    let front = devices.drop_last();
    root_devices_are_resolved_in_order(c, front);
    assert(front.push(devices.last()) =~= devices);
}

/// What is resolved is what the config lists: each piece of the list of root devices, in order. Without
/// a list, creation ends.
pub proof fn listed_devices_are_resolved(c: CreationView, config: config::ConfigView)
    requires
        c.devices.len() == 0,
    ensures
        annotations::device_list(config.annotations) is None ==> after_config(c, config).1
            == CreateStepView::Fail(
            CreateErrorView::Annotation(annotations::AnnotationErrorView::NoDevices),
        ) && after_config(c, config).0.phase is Over,
        annotations::device_list(config.annotations) matches Some(list) ==> after_config(c, config)
            == resolving(
            (CreationView {
                config: Some(config),
                refs: annotations::devices_parsed(list),
                ..c
            }),
            seq![],
        ),
{
}

/// Once `runc` has succeeded, the state of the container that was asked for is read. Otherwise this
/// process ends as `runc` did, with 1 if it was ended by a signal.
pub proof fn runc_decides(c: CreationView, code: i32, any: Option<i32>)
    ensures
        after_runc(c, true, any).1 == CreateStepView::ReadState(
            path::joined(c.root, vstd::utf8::encode_utf8(c.container_id + "/state.json"@)),
        ),
        after_runc(c, true, any).0 == (CreationView { phase: Phase::State, ..c }),
        after_runc(c, false, Some(code)).1 == CreateStepView::Exit(code),
        after_runc(c, false, None).1 == CreateStepView::Exit(1),
        after_runc(c, false, Some(code)).0.phase is Over,
        after_runc(c, false, None).0.phase is Over,
{
}

/// Where taking control of a container leads, after `n` of its steps are taken.
pub open spec fn setting_up(c: CreationView, n: nat) -> (CreationView, CreateStepView)
    decreases n,
{
    if n == 0 {
        next_setup(c)
    } else {
        next_setup(setting_up(c, (n - 1) as nat).0)
    }
}

/// The steps of taking control of a container are handed out one by one, in order, up to one that is
/// to give up. Once all are taken, stdio is redirected.
pub proof fn setup_steps_come_in_order(c: CreationView, n: nat)
    requires
        n <= c.setup.len(),
        forall|i: int| 0 <= i < n ==> !(#[trigger] c.setup[i] is Fail),
    ensures
        ({
            let (next, step) = setting_up(c, n);
            &&& n == c.setup.len() ==> step is DetachStdio && next.phase is Stdio && next.setup.len()
                == 0
            &&& n < c.setup.len() ==> {
                &&& next.setup == c.setup.skip(n as int + 1)
                &&& match c.setup[n as int] {
                    container::SetupStepView::Fail(e) => step == CreateStepView::Fail(
                        CreateErrorView::Container(e),
                    ) && next.phase is Over,
                    s => step == CreateStepView::SetUp(s) && next.phase is SetUp,
                }
            }
            &&& next.container == c.container
            &&& next.devices == c.devices
            &&& next.symlinks == c.symlinks
            &&& next.sysfs == c.sysfs
        }),
    decreases n,
{
    if n == 0 {
        if c.setup.len() > 0 {
            assert(c.setup.drop_first() =~= c.setup.skip(1));
        }
    } else {
        setup_steps_come_in_order(c, (n - 1) as nat);
        let before = setting_up(c, (n - 1) as nat).0;
        assert(!(c.setup[n - 1] is Fail));
        if n < c.setup.len() {
            assert(before.setup[0] == c.setup[n as int]);
            assert(before.setup.drop_first() =~= c.setup.skip(n as int + 1));
        }
    }
}

/// The steps that are handed out are those for the container whose state was read, and the container
/// is the one of the config and the state.
pub proof fn control_is_taken_of_what_was_read(c: CreationView, state: State)
    ensures
        after_state(c, state) == setting_up(
            (CreationView {
                setup: container::setup_steps(state),
                container: container::container_of(c.config->0, state),
                ..c
            }),
            0,
        ),
{
}

/// Creation starts with nothing known but what is asked for, `runc` is run once the logger is switched,
/// and the container is supervised once stdio is redirected, with what was configured and resolved.
pub proof fn nothing_is_lost_on_the_way(c: CreationView, root: Seq<u8>, id: Seq<char>)
    ensures
        begun(root, id).phase is Config,
        begun(root, id).root == root,
        begun(root, id).container_id == id,
        begun(root, id).devices.len() == 0,
        begun(root, id).container is None,
        after_logger(c).1 is RunRunc,
        after_logger(c).0 == (CreationView { phase: Phase::Runc, ..c }),
        after_stdio(c).1 is Supervise,
        after_stdio(c).0 == (CreationView { phase: Phase::Supervise, ..c }),
        c.container == Some(handed_over(c).container) || c.container is None,
        handed_over(c).devices == c.devices,
        handed_over(c).symlinks == c.symlinks,
        handed_over(c).sysfs == c.sysfs,
{
}

} // verus!
