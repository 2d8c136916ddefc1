//! Secure-volume devices: a block device of the guest is handed to the
//! Confidential Data Hub, and what reaches the container is the device that the
//! hub has set up over it.

use crate::text::{
    append_signed_decimal, decimal_value, law_signed_decimal_reads_back, same_text, signed_decimal,
};
use vstd::prelude::*;
use vstd::string::*;

verus! {

/// The type of devices that this handler is for.
pub const DRIVER_SECURE_VOLUME_TYPE: &'static str = "secure-volume";

/// The device-cgroup type of block devices.
pub const BLOCK_CGROUP_TYPE: &'static str = "b";

// ---------------------------------------------------------------------------
// Devices
// ---------------------------------------------------------------------------

/// How a device is to be activated.
#[derive(Debug)]
pub struct SecureVolume {
    /// The type under which the underlying device is found.
    pub source_driver: String,
    /// The annotation that selected the volume.
    pub annotation_key: String,
    /// Where the volume's manifest is.
    pub manifest_uri: String,
}

/// A device that a container asks for. `rest` is what only its handler reads.
#[derive(Debug)]
pub struct Device<R> {
    pub type_: String,
    pub secure_volume: Option<SecureVolume>,
    pub rest: R,
}

/// A device node of the guest.
#[derive(Debug)]
pub struct DeviceInfo {
    /// `b` for block devices.
    pub cgroup_type: String,
    pub guest_major: i64,
    pub guest_minor: i64,
}

impl DeviceInfo {
    /// It is a block device.
    pub open spec fn is_block(&self) -> bool {
        self.cgroup_type@ == BLOCK_CGROUP_TYPE@
    }

    /// Its number as text.
    pub open spec fn number_text(&self) -> Seq<char> {
        signed_decimal(self.guest_major as int) + ":"@ + signed_decimal(self.guest_minor as int)
    }

    /// Whether it is a block device.
    pub fn block(&self) -> (r: bool)
        ensures
            r == self.is_block(),
    {
        same_text(self.cgroup_type.as_str(), BLOCK_CGROUP_TYPE)
    }

    /// Its major and minor number, with a colon between them.
    pub fn number(&self) -> (r: String)
        ensures
            r@ == self.number_text(),
    {
        let mut r: String = String::new();
        append_signed_decimal(&mut r, self.guest_major);
        r.append(":");
        append_signed_decimal(&mut r, self.guest_minor);
        assert(r@ =~= self.number_text());
        r
    }
}

/// Why a device is not attached.
#[derive(Debug)]
pub enum DeviceError {
    /// The device says nothing about its activation.
    MissingConfiguration,
    /// The source driver is missing, or is this handler.
    InvalidSourceDriver,
    /// The annotation or the manifest is missing.
    IncompleteConfiguration,
    /// There is no handler for this source driver.
    UnsupportedSourceDriver { driver: String },
    /// The handler for this source driver failed; with the reason.
    SourceNotResolved { driver: String, reason: String },
    /// The source handler gave no device.
    NoSourceDevice,
    /// The source is not a block device.
    SourceNotBlock,
    /// The hub did not activate this device; with the reason.
    NotActivated { device_id: String, reason: String },
    /// The hub left out the activation's name or its device.
    IncompleteActivation,
    /// The activated device could not be inspected; with the reason.
    NotInspected { path: String, reason: String },
    /// The activated device is not a block device.
    MapperNotBlock,
    /// An event that the state does not wait for.
    OutOfOrder,
}

// ---------------------------------------------------------------------------
// Handling a device
// ---------------------------------------------------------------------------

/// How far the handling of a device has come.
pub enum DeviceState<R> {
    /// The handler of the source device is being looked up.
    FindingHandler { source: Device<R>, manifest_uri: String },
    /// The source device is being resolved by that handler.
    ResolvingSource { driver: String, manifest_uri: String },
    /// The hub is activating the source device.
    Activating { device_id: String },
    /// The activated device is being inspected.
    Inspecting { activation_id: String, path: String },
    /// The activation is being undone, for this reason.
    Deactivating { error: DeviceError },
    /// Nothing is awaited any more.
    Closed,
}

/// What happened outside.
pub enum DeviceEvent {
    /// Whether there is a handler.
    HandlerFound(bool),
    /// The device that the source handler gave, if any, or why it failed.
    SourceResolved(Result<Option<DeviceInfo>, String>),
    /// The name of the activation and the path of its device, or why there is
    /// none.
    Activated(Result<(String, String), String>),
    /// What was found at the path, or why nothing was.
    Inspected(Result<DeviceInfo, String>),
    /// The activation was undone, or not: either is accepted.
    Deactivated,
}

/// What is to be done outside.
pub enum DeviceAction<R> {
    /// Look up the handler for this type of devices.
    FindHandler { driver: String },
    /// Have that handler resolve this device.
    ResolveSource { source: Device<R> },
    /// Have the hub activate the device of this number.
    Activate { device_id: String, manifest_uri: String },
    /// Inspect the device node at this path.
    Inspect { path: String },
    /// Have the hub undo this activation.
    Deactivate { activation_id: String },
    /// Record the activation for the container and give it this device.
    Attach { activation_id: String, device: DeviceInfo },
    /// The container does not get the device.
    Fail(DeviceError),
}

/// What is wrong with a device's configuration.
pub open spec fn configuration_fault(secure_volume: Option<SecureVolume>) -> Option<DeviceError> {
    match secure_volume {
        None => Some(DeviceError::MissingConfiguration),
        Some(secure) => if secure.source_driver@.len() == 0 || secure.source_driver@
            == DRIVER_SECURE_VOLUME_TYPE@ {
            Some(DeviceError::InvalidSourceDriver)
        } else if secure.annotation_key@.len() == 0 || secure.manifest_uri@.len() == 0 {
            Some(DeviceError::IncompleteConfiguration)
        } else {
            None
        },
    }
}

/// The handling of a device ends with this error.
pub open spec fn refuses<R>(to: DeviceState<R>, action: DeviceAction<R>, error: DeviceError) -> bool {
    to is Closed && action == DeviceAction::<R>::Fail(error)
}

/// The activation is undone, and then the handling ends with this error.
pub open spec fn backs_out<R>(
    activation_id: String,
    to: DeviceState<R>,
    action: DeviceAction<R>,
    error: DeviceError,
) -> bool {
    &&& to == DeviceState::<R>::Deactivating { error }
    &&& action == DeviceAction::<R>::Deactivate { activation_id }
}

/// The start of the handling of a device: it is refused, or its source handler
/// is looked up. The source device is the device itself, as one of the type of
/// its source driver and without anything to activate.
pub open spec fn device_start<R>(
    device: Device<R>,
    to: DeviceState<R>,
    action: DeviceAction<R>,
) -> bool {
    match configuration_fault(device.secure_volume) {
        Some(error) => refuses(to, action, error),
        None => {
            let secure = device.secure_volume->0;
            let source = Device {
                type_: secure.source_driver,
                secure_volume: None,
                rest: device.rest,
            };
            &&& to == (DeviceState::FindingHandler { source, manifest_uri: secure.manifest_uri })
            &&& action matches DeviceAction::FindHandler { driver }
            &&& driver@ == secure.source_driver@
        },
    }
}

/// One step of the handling of a device.
pub open spec fn device_step<R>(
    from: DeviceState<R>,
    event: DeviceEvent,
    to: DeviceState<R>,
    action: DeviceAction<R>,
) -> bool {
    match (from, event) {
        (
            DeviceState::FindingHandler { source, manifest_uri },
            DeviceEvent::HandlerFound(false),
        ) => refuses(to, action, DeviceError::UnsupportedSourceDriver { driver: source.type_ }),
        (
            DeviceState::FindingHandler { source, manifest_uri },
            DeviceEvent::HandlerFound(true),
        ) => {
            &&& to matches DeviceState::ResolvingSource { driver, manifest_uri: manifest }
            &&& driver@ == source.type_@
            &&& manifest == manifest_uri
            &&& action == (DeviceAction::ResolveSource { source })
        },
        (
            DeviceState::ResolvingSource { driver, manifest_uri },
            DeviceEvent::SourceResolved(Err(reason)),
        ) => refuses(to, action, DeviceError::SourceNotResolved { driver, reason }),
        (
            DeviceState::ResolvingSource { .. },
            DeviceEvent::SourceResolved(Ok(None)),
        ) => refuses(to, action, DeviceError::NoSourceDevice),
        (
            DeviceState::ResolvingSource { driver, manifest_uri },
            DeviceEvent::SourceResolved(Ok(Some(info))),
        ) => {
            if !info.is_block() {
                refuses(to, action, DeviceError::SourceNotBlock)
            } else {
                &&& to matches DeviceState::Activating { device_id }
                &&& device_id@ == info.number_text()
                &&& action matches DeviceAction::Activate { device_id: number, manifest_uri: manifest }
                &&& number@ == info.number_text()
                &&& manifest == manifest_uri
            }
        },
        (
            DeviceState::Activating { device_id },
            DeviceEvent::Activated(Err(reason)),
        ) => refuses(to, action, DeviceError::NotActivated { device_id, reason }),
        (
            DeviceState::Activating { .. },
            DeviceEvent::Activated(Ok((activation_id, path))),
        ) => {
            if activation_id@.len() == 0 {
                refuses(to, action, DeviceError::IncompleteActivation)
            } else if path@.len() == 0 {
                backs_out(activation_id, to, action, DeviceError::IncompleteActivation)
            } else {
                &&& to == DeviceState::<R>::Inspecting { activation_id, path }
                &&& action matches DeviceAction::Inspect { path: inspected }
                &&& inspected@ == path@
            }
        },
        (
            DeviceState::Inspecting { activation_id, path },
            DeviceEvent::Inspected(Err(reason)),
        ) => backs_out(activation_id, to, action, DeviceError::NotInspected { path, reason }),
        (
            DeviceState::Inspecting { activation_id, path },
            DeviceEvent::Inspected(Ok(device)),
        ) => {
            if device.is_block() {
                &&& to is Closed
                &&& action == DeviceAction::<R>::Attach { activation_id, device }
            } else {
                backs_out(activation_id, to, action, DeviceError::MapperNotBlock)
            }
        },
        (DeviceState::Inspecting { activation_id, path }, _) => backs_out(
            activation_id,
            to,
            action,
            DeviceError::OutOfOrder,
        ),
        (DeviceState::Deactivating { error }, DeviceEvent::Deactivated) => refuses(
            to,
            action,
            error,
        ),
        _ => refuses(to, action, DeviceError::OutOfOrder),
    }
}

fn refuse<R>(error: DeviceError) -> (r: (DeviceState<R>, DeviceAction<R>))
    ensures
        refuses(r.0, r.1, error),
{
    (DeviceState::Closed, DeviceAction::Fail(error))
}

fn back_out<R>(activation_id: String, error: DeviceError) -> (r: (DeviceState<R>, DeviceAction<R>))
    ensures
        backs_out(activation_id, r.0, r.1, error),
{
    (DeviceState::Deactivating { error }, DeviceAction::Deactivate { activation_id })
}

/// The handler of secure-volume devices.
#[derive(Debug)]
pub struct SecureVolumeDeviceHandler {}

impl SecureVolumeDeviceHandler {
    /// The types of devices that this handler is for.
    pub fn driver_types(&self) -> (r: [&'static str; 1])
        ensures
            r@.len() == 1,
            r@[0]@ == "secure-volume"@,
    {
        [DRIVER_SECURE_VOLUME_TYPE]
    }

    /// Starts the handling of `device`.
    pub fn device_handler<R>(&self, device: Device<R>) -> (r: (DeviceState<R>, DeviceAction<R>))
        ensures
            device_start(device, r.0, r.1),
    {
        let secure: SecureVolume = match device.secure_volume {
            Some(secure) => secure,
            None => {
                return refuse(DeviceError::MissingConfiguration);
            },
        };
        if secure.source_driver.as_str().is_empty() || same_text(
            secure.source_driver.as_str(),
            DRIVER_SECURE_VOLUME_TYPE,
        ) {
            return refuse(DeviceError::InvalidSourceDriver);
        }
        if secure.annotation_key.as_str().is_empty() || secure.manifest_uri.as_str().is_empty() {
            return refuse(DeviceError::IncompleteConfiguration);
        }
        let driver: String = secure.source_driver.clone();
        let source: Device<R> = Device {
            type_: secure.source_driver,
            secure_volume: None,
            rest: device.rest,
        };
        (
            DeviceState::FindingHandler { source, manifest_uri: secure.manifest_uri },
            DeviceAction::FindHandler { driver },
        )
    }

    /// Carries the handling of a device one step further.
    pub fn continue_handling<R>(&self, state: DeviceState<R>, event: DeviceEvent) -> (r: (
        DeviceState<R>,
        DeviceAction<R>,
    ))
        ensures
            device_step(state, event, r.0, r.1),
    {
        match (state, event) {
            (
                DeviceState::FindingHandler { source, manifest_uri },
                DeviceEvent::HandlerFound(found),
            ) => {
                if !found {
                    return refuse(DeviceError::UnsupportedSourceDriver { driver: source.type_ });
                }
                let driver: String = source.type_.clone();
                (
                    DeviceState::ResolvingSource { driver, manifest_uri },
                    DeviceAction::ResolveSource { source },
                )
            },
            (
                DeviceState::ResolvingSource { driver, manifest_uri },
                DeviceEvent::SourceResolved(outcome),
            ) => match outcome {
                Err(reason) => refuse(DeviceError::SourceNotResolved { driver, reason }),
                Ok(None) => refuse(DeviceError::NoSourceDevice),
                Ok(Some(info)) => {
                    if !info.block() {
                        return refuse(DeviceError::SourceNotBlock);
                    }
                    let device_id: String = info.number();
                    (
                        DeviceState::Activating { device_id: device_id.clone() },
                        DeviceAction::Activate { device_id, manifest_uri },
                    )
                },
            },
            (DeviceState::Activating { device_id }, DeviceEvent::Activated(outcome)) => match outcome {
                Err(reason) => refuse(DeviceError::NotActivated { device_id, reason }),
                Ok((activation_id, path)) => {
                    if activation_id.as_str().is_empty() {
                        return refuse(DeviceError::IncompleteActivation);
                    }
                    if path.as_str().is_empty() {
                        return back_out(activation_id, DeviceError::IncompleteActivation);
                    }
                    let inspected: String = path.clone();
                    (
                        DeviceState::Inspecting { activation_id, path },
                        DeviceAction::Inspect { path: inspected },
                    )
                },
            },
            (
                DeviceState::Inspecting { activation_id, path },
                DeviceEvent::Inspected(outcome),
            ) => match outcome {
                Err(reason) => back_out(activation_id, DeviceError::NotInspected { path, reason }),
                Ok(device) => {
                    if !device.block() {
                        return back_out(activation_id, DeviceError::MapperNotBlock);
                    }
                    (DeviceState::Closed, DeviceAction::Attach { activation_id, device })
                },
            },
            (DeviceState::Inspecting { activation_id, path: _ }, _) => back_out(
                activation_id,
                DeviceError::OutOfOrder,
            ),
            (DeviceState::Deactivating { error }, DeviceEvent::Deactivated) => refuse(error),
            _ => refuse(DeviceError::OutOfOrder),
        }
    }
}

// ---------------------------------------------------------------------------
// Recorded activations
// ---------------------------------------------------------------------------

/// The activations of each container, which are undone when it is torn down.
pub struct ActivationRegister {
    containers: Vec<(String, Vec<String>)>,
}

/// The texts of activation names.
pub open spec fn activation_texts(ids: Seq<String>) -> Seq<Seq<char>> {
    ids.map_values(|id: String| id@)
}

/// The activations of a container.
pub open spec fn activations_of(
    register: Map<Seq<char>, Seq<Seq<char>>>,
    container: Seq<char>,
) -> Seq<Seq<char>> {
    if register.contains_key(container) {
        register[container]
    } else {
        seq![]
    }
}

/// The register after one more activation of a container was recorded.
pub open spec fn recorded(
    register: Map<Seq<char>, Seq<Seq<char>>>,
    container: Seq<char>,
    activation_id: Seq<char>,
) -> Map<Seq<char>, Seq<Seq<char>>> {
    register.insert(container, activations_of(register, container).push(activation_id))
}

spec fn is_place(containers: Seq<(String, Vec<String>)>, container: Seq<char>, i: int) -> bool {
    0 <= i < containers.len() && containers[i].0@ == container
}

spec fn place_of(containers: Seq<(String, Vec<String>)>, container: Seq<char>) -> int {
    choose|i: int| is_place(containers, container, i)
}

spec fn register_map(containers: Seq<(String, Vec<String>)>) -> Map<Seq<char>, Seq<Seq<char>>> {
    Map::new(
        |container: Seq<char>| exists|i: int| is_place(containers, container, i),
        |container: Seq<char>| activation_texts(containers[place_of(containers, container)].1@),
    )
}

spec fn distinct(containers: Seq<(String, Vec<String>)>) -> bool {
    forall|i: int, j: int|
        0 <= i < containers.len() && 0 <= j < containers.len() && i != j
            ==> (#[trigger] containers[i]).0@ != (#[trigger] containers[j]).0@
}

proof fn lemma_place(containers: Seq<(String, Vec<String>)>, container: Seq<char>, i: int)
    requires
        distinct(containers),
        is_place(containers, container, i),
    ensures
        place_of(containers, container) == i,
        register_map(containers).contains_key(container),
        register_map(containers)[container] == activation_texts(containers[i].1@),
{
    let j = place_of(containers, container);
    assert(is_place(containers, container, j));
    if i != j {
        assert(containers[i].0@ != containers[j].0@);
    }
}

proof fn lemma_record(
    before: Seq<(String, Vec<String>)>,
    after: Seq<(String, Vec<String>)>,
    container: Seq<char>,
    activation_id: String,
    at: int,
)
    requires
        distinct(before),
        0 <= at < after.len(),
        at <= before.len(),
        after.len() == if at < before.len() {
            before.len()
        } else {
            before.len() + 1
        },
        at < before.len() ==> is_place(before, container, at) && after[at].1@ == before[at].1@.push(
            activation_id,
        ),
        at == before.len() ==> !register_map(before).contains_key(container) && after[at].1@
            == seq![activation_id],
        after[at].0@ == container,
        forall|i: int| 0 <= i < before.len() && i != at ==> #[trigger] after[i] == before[i],
    ensures
        distinct(after),
        register_map(after) == recorded(register_map(before), container, activation_id@),
{
    assert forall|i: int| 0 <= i < before.len() && i != at implies (
    #[trigger] before[i]).0@ != container by {
        if before[i].0@ == container {
            assert(is_place(before, container, i));
            if at < before.len() {
                assert(before[i].0@ != before[at].0@);
            }
        }
    }
    assert(distinct(after)) by {
        assert forall|i: int, j: int|
            0 <= i < after.len() && 0 <= j < after.len() && i != j implies (
        #[trigger] after[i]).0@ != (#[trigger] after[j]).0@ by {
            if i != at {
                assert(after[i] == before[i]);
            }
            if j != at {
                assert(after[j] == before[j]);
            }
        }
    }
    let m = register_map(before);
    let n = register_map(after);
    let expected = recorded(m, container, activation_id@);
    assert forall|c: Seq<char>| #[trigger] n.contains_key(c) <==> expected.contains_key(c) by {
        if n.contains_key(c) {
            let i = choose|i: int| is_place(after, c, i);
            if i != at {
                assert(after[i] == before[i]);
                assert(is_place(before, c, i));
            }
        }
        if m.contains_key(c) {
            let i = choose|i: int| is_place(before, c, i);
            if i != at {
                assert(after[i] == before[i]);
            }
            assert(is_place(after, c, i));
        }
        if c == container {
            assert(is_place(after, c, at));
        }
    }
    assert forall|c: Seq<char>| #[trigger] n.contains_key(c) implies n[c] == expected[c] by {
        let i = choose|i: int| is_place(after, c, i);
        lemma_place(after, c, i);
        if i != at {
            assert(after[i] == before[i]);
            lemma_place(before, c, i);
        } else {
            if at < before.len() {
                lemma_place(before, c, at);
                assert(activation_texts(after[at].1@) =~= activation_texts(before[at].1@).push(
                    activation_id@,
                ));
            } else {
                assert(activation_texts(after[at].1@) =~= seq![activation_id@]);
                assert(activations_of(m, c).push(activation_id@) =~= seq![activation_id@]);
            }
        }
    }
    assert(n =~= expected);
}

impl View for ActivationRegister {
    type V = Map<Seq<char>, Seq<Seq<char>>>;

    closed spec fn view(&self) -> Map<Seq<char>, Seq<Seq<char>>> {
        register_map(self.containers@)
    }
}

impl ActivationRegister {
    /// Each container is listed once.
    pub closed spec fn wf(&self) -> bool {
        distinct(self.containers@)
    }

    /// An empty register.
    pub fn new() -> (r: Self)
        ensures
            r.wf(),
            r@ == Map::<Seq<char>, Seq<Seq<char>>>::empty(),
    {
        let r = ActivationRegister { containers: Vec::new() };
        assert(r@ =~= Map::<Seq<char>, Seq<Seq<char>>>::empty());
        r
    }

    fn find(&self, container: &str) -> (place: Option<usize>)
        ensures
            match place {
                Some(i) => is_place(self.containers@, container@, i as int),
                None => !self@.contains_key(container@),
            },
    {
        let mut i: usize = 0;
        while i < self.containers.len()
            invariant
                i <= self.containers@.len(),
                forall|j: int| 0 <= j < i ==> !is_place(self.containers@, container@, j),
            decreases self.containers@.len() - i,
        {
            if same_text(self.containers[i].0.as_str(), container) {
                return Some(i);
            }
            i += 1;
        }
        None
    }

    /// Records an activation of a container.
    pub fn record(&mut self, container: &str, activation_id: String)
        requires
            old(self).wf(),
        ensures
            final(self).wf(),
            final(self)@ == recorded(old(self)@, container@, activation_id@),
    {
        let ghost before = self.containers@;
        let place: Option<usize> = self.find(container);
        match place {
            Some(i) => {
                self.containers[i].1.push(activation_id);
            },
            None => {
                let mut ids: Vec<String> = Vec::new();
                ids.push(activation_id);
                self.containers.push((container.to_owned(), ids));
            },
        }
        proof {
            let at: int = match place {
                Some(i) => i as int,
                None => before.len() as int,
            };
            lemma_record(before, self.containers@, container@, activation_id, at);
        }
    }

    /// The activations of a container, in the order in which they were
    /// recorded.
    pub fn activations(&self, container: &str) -> (r: Option<&Vec<String>>)
        requires
            self.wf(),
        ensures
            match r {
                Some(ids) => self@.contains_key(container@) && activation_texts(ids@)
                    == self@[container@],
                None => !self@.contains_key(container@),
            },
    {
        match self.find(container) {
            Some(i) => {
                proof {
                    lemma_place(self.containers@, container@, i as int);
                }
                Some(&self.containers[i].1)
            },
            None => None,
        }
    }
}

// ---------------------------------------------------------------------------
// Laws
// ---------------------------------------------------------------------------

/// A step of the handling of a device that was taken.
pub struct DeviceTransition<R> {
    pub from: DeviceState<R>,
    pub event: DeviceEvent,
    pub to: DeviceState<R>,
    pub action: DeviceAction<R>,
}

/// Steps that were taken one after another, from the start of the handling of
/// `device` on and no further than to its end.
pub open spec fn device_run<R>(device: Device<R>, run: Seq<DeviceTransition<R>>) -> bool {
    &&& run.len() > 0
    &&& exists|action: DeviceAction<R>|
        #[trigger] device_start(device, run[0].from, action) && !(run[0].from is Closed)
    &&& forall|i: int|
        #![trigger run[i]]
        0 <= i < run.len() ==> device_step(run[i].from, run[i].event, run[i].to, run[i].action)
    &&& forall|i: int|
        #![trigger run[i]]
        0 < i < run.len() ==> run[i].from == run[i - 1].to && !(run[i].from is Closed)
}

/// The activation that the hub reports in this step, if any.
pub open spec fn reported_activation<R>(step: DeviceTransition<R>) -> Seq<Seq<char>> {
    match (step.from, step.event) {
        (DeviceState::Activating { .. }, DeviceEvent::Activated(Ok((activation_id, _)))) => {
            if activation_id@.len() > 0 {
                seq![activation_id@]
            } else {
                seq![]
            }
        },
        _ => seq![],
    }
}

/// The activations that the hub reported, in this order.
pub open spec fn obtained<R>(run: Seq<DeviceTransition<R>>) -> Seq<Seq<char>>
    decreases run.len(),
{
    if run.len() == 0 {
        seq![]
    } else {
        obtained(run.drop_last()) + reported_activation(run.last())
    }
}

/// The activations that the hub was asked to undo, in this order.
pub open spec fn undone<R>(run: Seq<DeviceTransition<R>>) -> Seq<Seq<char>>
    decreases run.len(),
{
    if run.len() == 0 {
        seq![]
    } else {
        match run.last().action {
            DeviceAction::Deactivate { activation_id } => undone(run.drop_last()).push(
                activation_id@,
            ),
            _ => undone(run.drop_last()),
        }
    }
}

spec fn balanced<R>(
    state: DeviceState<R>,
    opened: Seq<Seq<char>>,
    closed_again: Seq<Seq<char>>,
    action: DeviceAction<R>,
) -> bool {
    match state {
        DeviceState::Inspecting { activation_id, path } => {
            &&& opened == seq![activation_id@]
            &&& closed_again == Seq::<Seq<char>>::empty()
            &&& !(action is Fail || action is Attach)
        },
        DeviceState::Deactivating { error } => {
            &&& opened == closed_again
            &&& opened.len() == 1
            &&& !(action is Fail || action is Attach)
        },
        DeviceState::Closed => match action {
            DeviceAction::Attach { activation_id, device } => opened == seq![activation_id@]
                && closed_again == Seq::<Seq<char>>::empty(),
            DeviceAction::Fail(_) => opened == closed_again,
            _ => false,
        },
        _ => {
            &&& opened == Seq::<Seq<char>>::empty()
            &&& closed_again == Seq::<Seq<char>>::empty()
            &&& !(action is Fail || action is Attach)
        },
    }
}

proof fn lemma_balanced<R>(device: Device<R>, run: Seq<DeviceTransition<R>>)
    requires
        device_run(device, run),
    ensures
        balanced(run.last().to, obtained(run), undone(run), run.last().action),
    decreases run.len(),
{
    let n = run.len() as int;
    let last = run[n - 1];
    let earlier = run.drop_last();
    assert(device_step(last.from, last.event, last.to, last.action));
    if n == 1 {
        assert(obtained(earlier) =~= seq![]);
        assert(undone(earlier) =~= seq![]);
        assert(last.from is FindingHandler);
    } else {
        assert(last.from == run[n - 2].to);
        assert forall|i: int| #![trigger earlier[i]] 0 <= i < earlier.len() implies device_step(
            earlier[i].from,
            earlier[i].event,
            earlier[i].to,
            earlier[i].action,
        ) by {
            assert(earlier[i] == run[i]);
        }
        assert forall|i: int| #![trigger earlier[i]] 0 < i < earlier.len() implies earlier[i].from
            == earlier[i - 1].to && !(earlier[i].from is Closed) by {
            assert(earlier[i] == run[i]);
        }
        lemma_balanced(device, earlier);
        assert(earlier.last() == run[n - 2]);
    }
    assert(obtained(run) =~= obtained(earlier) + reported_activation(last));
    if last.from is Inspecting || last.from is Deactivating {
        assert(obtained(run) =~= obtained(earlier));
    }
    if last.from is Activating {
        assert(obtained(run) =~= reported_activation(last));
    }
    if last.from is Inspecting && last.to is Deactivating {
        assert(undone(run) =~= obtained(run));
    }
    if last.from is Activating && last.to is Deactivating {
        assert(undone(run) =~= obtained(run));
    }
}

/// No failure leaves an activation behind: what the hub activated it was also
/// asked to undo, and nothing else. On success there is exactly one activation,
/// it was not undone, and it is the one that gets recorded.
pub proof fn law_no_activation_is_left_behind<R>(device: Device<R>, run: Seq<DeviceTransition<R>>)
    requires
        device_run(device, run),
    ensures
        run.last().action is Fail ==> undone(run) == obtained(run),
        run.last().action matches DeviceAction::Attach { activation_id, device: attached } ==> {
            &&& obtained(run) == seq![activation_id@]
            &&& undone(run) == Seq::<Seq<char>>::empty()
        },
{
    lemma_balanced(device, run);
}

/// Only the device that the hub has set up is attached, and only if it is a
/// block device: the source is a block device too, the hub activated it by its
/// number and with the manifest of the configuration, and what was inspected
/// and attached is the device at the path that the hub gave.
pub proof fn law_only_the_activated_device_is_attached<R>(
    device: Device<R>,
    run: Seq<DeviceTransition<R>>,
    activation_id: String,
    attached: DeviceInfo,
)
    requires
        device_run(device, run),
        run.last().action == (DeviceAction::<R>::Attach { activation_id, device: attached }),
    ensures
        configuration_fault(device.secure_volume) is None,
        run.len() == 4,
        run[0].event == DeviceEvent::HandlerFound(true),
        run[0].action matches DeviceAction::ResolveSource { source } && {
            &&& source.type_ == device.secure_volume->0.source_driver
            &&& source.secure_volume is None
            &&& source.rest == device.rest
        },
        run[1].event matches DeviceEvent::SourceResolved(Ok(Some(source))) && {
            &&& source.is_block()
            &&& run[1].action matches DeviceAction::Activate { device_id, manifest_uri }
            &&& device_id@ == source.number_text()
            &&& manifest_uri == device.secure_volume->0.manifest_uri
        },
        run[2].event matches DeviceEvent::Activated(Ok((id, path))) && {
            &&& id == activation_id
            &&& id@.len() > 0
            &&& path@.len() > 0
            &&& run[2].action matches DeviceAction::Inspect { path: inspected }
            &&& inspected@ == path@
        },
        run[3].event == DeviceEvent::Inspected(Ok(attached)),
        attached.is_block(),
{
    let n = run.len() as int;
    assert(run[n - 1] == run.last());
    lemma_stages(run, n - 1);
    assert(device_step(run[0].from, run[0].event, run[0].to, run[0].action));
    assert(device_step(run[1].from, run[1].event, run[1].to, run[1].action));
    assert(device_step(run[2].from, run[2].event, run[2].to, run[2].action));
    assert(device_step(run[3].from, run[3].event, run[3].to, run[3].action));
    assert(run[1].from == run[0].to);
    assert(run[2].from == run[1].to);
    assert(run[3].from == run[2].to);
}

spec fn stage<R>(state: DeviceState<R>) -> int {
    match state {
        DeviceState::FindingHandler { .. } => 0,
        DeviceState::ResolvingSource { .. } => 1,
        DeviceState::Activating { .. } => 2,
        DeviceState::Inspecting { .. } => 3,
        _ => 4,
    }
}

proof fn lemma_stages<R>(run: Seq<DeviceTransition<R>>, i: int)
    requires
        run.len() > 0,
        run[0].from is FindingHandler,
        forall|j: int|
            #![trigger run[j]]
            0 <= j < run.len() ==> device_step(run[j].from, run[j].event, run[j].to, run[j].action),
        forall|j: int| #![trigger run[j]] 0 < j < run.len() ==> run[j].from == run[j - 1].to,
        0 <= i < run.len(),
    ensures
        stage(run[i].from) < 4 ==> stage(run[i].from) == i,
    decreases i,
{
    if i > 0 {
        lemma_stages(run, i - 1);
        assert(run[i].from == run[i - 1].to);
        assert(device_step(run[i - 1].from, run[i - 1].event, run[i - 1].to, run[i - 1].action));
    }
}

/// Recording an activation adds it to those of its container, after the others,
/// and leaves every other container alone.
pub proof fn law_recording_only_adds(
    register: Map<Seq<char>, Seq<Seq<char>>>,
    container: Seq<char>,
    activation_id: Seq<char>,
    other: Seq<char>,
)
    ensures
        activations_of(recorded(register, container, activation_id), other) == if other
            == container {
            activations_of(register, other).push(activation_id)
        } else {
            activations_of(register, other)
        },
{
}

// ---------------------------------------------------------------------------
// Laws, written out
// ---------------------------------------------------------------------------

/// Every complete configuration is taken up: with a source driver that is not
/// this handler's own, an annotation and a manifest, the handler of exactly that
/// driver is looked up, for the device as one of that driver, with nothing to
/// activate.
pub proof fn law_complete_configurations_are_taken_up<R>(
    device: Device<R>,
    secure: SecureVolume,
    to: DeviceState<R>,
    action: DeviceAction<R>,
)
    requires
        device_start(device, to, action),
        device.secure_volume == Some(secure),
        secure.source_driver@.len() > 0,
        secure.source_driver@ != "secure-volume"@,
        secure.annotation_key@.len() > 0,
        secure.manifest_uri@.len() > 0,
    ensures
        action matches DeviceAction::FindHandler { driver } && driver@ == secure.source_driver@,
        to matches DeviceState::FindingHandler { source, manifest_uri } && {
            &&& source.type_ == secure.source_driver
            &&& source.secure_volume is None
            &&& source.rest == device.rest
            &&& manifest_uri == secure.manifest_uri
        },
{
}

/// Only these configurations are refused: none at all; no source driver, or this
/// handler's own; no annotation or no manifest. Nothing is done for them.
pub proof fn law_incomplete_configurations_are_refused<R>(
    device: Device<R>,
    to: DeviceState<R>,
    action: DeviceAction<R>,
)
    requires
        device_start(device, to, action),
    ensures
        device.secure_volume is None ==> action == DeviceAction::<R>::Fail(
            DeviceError::MissingConfiguration,
        ),
        device.secure_volume matches Some(secure) ==> {
            let own = secure.source_driver@.len() == 0 || secure.source_driver@ == "secure-volume"@;
            let lacking = secure.annotation_key@.len() == 0 || secure.manifest_uri@.len() == 0;
            &&& own ==> action == DeviceAction::<R>::Fail(DeviceError::InvalidSourceDriver)
            &&& !own && lacking ==> action == DeviceAction::<R>::Fail(
                DeviceError::IncompleteConfiguration,
            )
            &&& !own && !lacking ==> !(action is Fail)
        },
        action is Fail ==> to is Closed,
{
}

/// Where everything that is asked for is done, and both the source and what the
/// hub has set up are block devices, the device at the hub's path is attached:
/// after the source was resolved, the hub was asked to activate the device of its
/// number, with the manifest of the configuration, and its path was inspected.
pub proof fn law_handling_goes_through<R>(
    device: Device<R>,
    run: Seq<DeviceTransition<R>>,
    source: DeviceInfo,
    activation_id: String,
    path: String,
    mapper: DeviceInfo,
)
    requires
        device_run(device, run),
        run.len() == 4,
        run[0].event == DeviceEvent::HandlerFound(true),
        run[1].event == DeviceEvent::SourceResolved(Ok(Some(source))),
        source.cgroup_type@ == "b"@,
        run[2].event == DeviceEvent::Activated(Ok((activation_id, path))),
        activation_id@.len() > 0,
        path@.len() > 0,
        run[3].event == DeviceEvent::Inspected(Ok(mapper)),
        mapper.cgroup_type@ == "b"@,
    ensures
        run[0].action matches DeviceAction::ResolveSource { source: resolved } && {
            &&& device.secure_volume is Some
            &&& resolved.type_ == device.secure_volume->0.source_driver
            &&& resolved.secure_volume is None
            &&& resolved.rest == device.rest
        },
        run[0].to matches DeviceState::ResolvingSource { driver, manifest_uri } && driver@
            == device.secure_volume->0.source_driver@,
        run[1].to matches DeviceState::Activating { device_id } && device_id@ == signed_decimal(
            source.guest_major as int,
        ) + ":"@ + signed_decimal(source.guest_minor as int),
        run[1].action matches DeviceAction::Activate { device_id, manifest_uri } && {
            &&& device_id@ == signed_decimal(source.guest_major as int) + ":"@ + signed_decimal(
                source.guest_minor as int,
            )
            &&& manifest_uri == device.secure_volume->0.manifest_uri
        },
        run[2].action matches DeviceAction::Inspect { path: inspected } && inspected@ == path@,
        run[3].action == (DeviceAction::<R>::Attach { activation_id, device: mapper }),
{
    assert(device_step(run[0].from, run[0].event, run[0].to, run[0].action));
    assert(run[1].from == run[0].to);
    assert(device_step(run[1].from, run[1].event, run[1].to, run[1].action));
    assert(run[2].from == run[1].to);
    assert(device_step(run[2].from, run[2].event, run[2].to, run[2].action));
    assert(run[3].from == run[2].to);
    assert(device_step(run[3].from, run[3].event, run[3].to, run[3].action));
}

/// What fails outside ends the handling with the error of that step and the
/// reason that was given; if the hub has activated something under a name by
/// then, it is undone first. So does an answer to what was not asked.
pub proof fn law_handling_failures<R>(step: DeviceTransition<R>, reason: String)
    requires
        device_step(step.from, step.event, step.to, step.action),
    ensures
        step.action is Fail ==> step.to is Closed,
        ({
            ||| step.from is FindingHandler && step.event is HandlerFound
            ||| step.from is ResolvingSource && step.event is SourceResolved
            ||| step.from is Activating && step.event is Activated
            ||| step.from is Inspecting && step.event is Inspected
            ||| step.from is Deactivating && step.event is Deactivated
            ||| step.from is Inspecting && step.to == (DeviceState::<R>::Deactivating {
                error: DeviceError::OutOfOrder,
            }) && step.action == (DeviceAction::<R>::Deactivate {
                activation_id: step.from->Inspecting_activation_id,
            })
            ||| !(step.from is Inspecting) && step.action == DeviceAction::<R>::Fail(
                DeviceError::OutOfOrder,
            )
        }),
        step.from matches DeviceState::FindingHandler { source, manifest_uri } ==> (step.event
            == DeviceEvent::HandlerFound(false) ==> step.action == DeviceAction::<R>::Fail(
            DeviceError::UnsupportedSourceDriver { driver: source.type_ },
        )),
        step.from matches DeviceState::ResolvingSource { driver, manifest_uri } ==> {
            &&& step.event == DeviceEvent::SourceResolved(Err(reason)) ==> step.action
                == DeviceAction::<R>::Fail(DeviceError::SourceNotResolved { driver, reason })
            &&& step.event == DeviceEvent::SourceResolved(Ok(None)) ==> step.action
                == DeviceAction::<R>::Fail(DeviceError::NoSourceDevice)
            &&& step.event matches DeviceEvent::SourceResolved(Ok(Some(info))) ==> (
            info.cgroup_type@ != "b"@ ==> step.action == DeviceAction::<R>::Fail(
                DeviceError::SourceNotBlock,
            ))
        },
        step.from matches DeviceState::Activating { device_id } ==> {
            &&& step.event == DeviceEvent::Activated(Err(reason)) ==> step.action
                == DeviceAction::<R>::Fail(DeviceError::NotActivated { device_id, reason })
            &&& step.event matches DeviceEvent::Activated(Ok((activation_id, path))) ==> {
                &&& activation_id@.len() == 0 ==> step.action == DeviceAction::<R>::Fail(
                    DeviceError::IncompleteActivation,
                )
                &&& activation_id@.len() > 0 && path@.len() == 0 ==> {
                    &&& step.action == (DeviceAction::<R>::Deactivate { activation_id })
                    &&& step.to == (DeviceState::<R>::Deactivating {
                        error: DeviceError::IncompleteActivation,
                    })
                }
            }
        },
        step.from matches DeviceState::Inspecting { activation_id, path } ==> {
            &&& step.event == DeviceEvent::Inspected(Err(reason)) ==> {
                &&& step.action == (DeviceAction::<R>::Deactivate { activation_id })
                &&& step.to == (DeviceState::<R>::Deactivating {
                    error: DeviceError::NotInspected { path, reason },
                })
            }
            &&& step.event matches DeviceEvent::Inspected(Ok(info)) ==> (info.cgroup_type@ != "b"@
                ==> {
                &&& step.action == (DeviceAction::<R>::Deactivate { activation_id })
                &&& step.to == (DeviceState::<R>::Deactivating {
                    error: DeviceError::MapperNotBlock,
                })
            })
        },
        step.from matches DeviceState::Deactivating { error } ==> (step.event is Deactivated
            ==> step.action == DeviceAction::<R>::Fail(error)),
{
}

/// A device is a block device if its cgroup type is `b`, and its number is its
/// major and minor number in decimal with a colon between them.
pub proof fn law_device_numbers(info: DeviceInfo)
    ensures
        info.is_block() <==> info.cgroup_type@ == "b"@,
        info.number_text() == signed_decimal(info.guest_major as int) + ":"@ + signed_decimal(
            info.guest_minor as int,
        ),
        info.guest_major >= 0 && info.guest_minor >= 0 ==> exists|k: int|
            {
                &&& 0 < k < info.number_text().len() - 1
                &&& (#[trigger] info.number_text()[k]) as int == 0x3a
                &&& decimal_value(info.number_text().take(k)) == info.guest_major
                &&& decimal_value(info.number_text().skip(k + 1)) == info.guest_minor
            },
{
    reveal_strlit(":");
    let a = signed_decimal(info.guest_major as int);
    let b = signed_decimal(info.guest_minor as int);
    law_signed_decimal_reads_back(info.guest_major as int);
    law_signed_decimal_reads_back(info.guest_minor as int);
    let t = info.number_text();
    let k = a.len() as int;
    assert(t[k] == ':');
    assert(t.take(k) =~= a);
    assert(t.skip(k + 1) =~= b);
}

/// The register after an activation was recorded: the container has what it had,
/// and the activation behind it; every other container has what it had.
pub proof fn law_register_after_recording(
    register: Map<Seq<char>, Seq<Seq<char>>>,
    container: Seq<char>,
    activation_id: Seq<char>,
)
    ensures
        ({
            let after = recorded(register, container, activation_id);
            &&& register.contains_key(container) ==> activations_of(register, container)
                == register[container]
            &&& !register.contains_key(container) ==> activations_of(register, container).len()
                == 0
            &&& after.dom() == register.dom().insert(container)
            &&& register.contains_key(container) ==> after[container]
                == register[container].push(activation_id)
            &&& !register.contains_key(container) ==> after[container] == seq![activation_id]
            &&& forall|other: Seq<char>|
                other != container && register.contains_key(other) ==> #[trigger] after[other]
                    == register[other]
        }),
{
    let after = recorded(register, container, activation_id);
    assert(after.dom() =~= register.dom().insert(container));
    if !register.contains_key(container) {
        assert(Seq::<Seq<char>>::empty().push(activation_id) =~= seq![activation_id]);
    }
}

/// The texts of activation names are the names, one for one.
pub proof fn law_activation_texts(ids: Seq<String>, i: int)
    requires
        0 <= i < ids.len(),
    ensures
        activation_texts(ids).len() == ids.len(),
        activation_texts(ids)[i] == ids[i]@,
{
}

} // verus!
