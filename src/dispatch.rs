//! The event protocol: each host operation takes the runtime lock, loads the UI
//! rules module, calls the operation's handler, and renders the current view.
//! The steps are decided here; the caller performs each action and reports its
//! outcome as the next event.
use vstd::prelude::*;
use crate::convert::{lua_value_to_json, result_model, to_json, ConversionError};
use crate::value::{JsonModel, JsonValue, LuaModel, LuaValue};

verus! {

/// The module that holds the UI handlers, resolved by name on every operation.
pub const UI_MODULE: &'static str = "utils.ui_rules";

/// A host-facing operation.
pub enum Operation {
    /// Render request: handler `init_state()`, then render.
    GetView,
    /// Field edit: handler `on_input_change(screen_id, field_id, value)`, then render.
    InputChange { screen_id: String, field_id: String, value: String },
    /// Button press: handler `on_button_click(screen_id, button_id)`, then render.
    ButtonClick { screen_id: String, button_id: String },
}

/// The mathematical value of an `Operation`.
pub enum OpModel {
    GetView,
    InputChange(Seq<char>, Seq<char>, Seq<char>),
    ButtonClick(Seq<char>, Seq<char>),
}

impl View for Operation {
    type V = OpModel;

    open spec fn view(&self) -> OpModel {
        match self {
            Operation::GetView => OpModel::GetView,
            Operation::InputChange { screen_id, field_id, value } => OpModel::InputChange(
                screen_id@,
                field_id@,
                value@,
            ),
            Operation::ButtonClick { screen_id, button_id } => OpModel::ButtonClick(
                screen_id@,
                button_id@,
            ),
        }
    }
}

impl Operation {
    /// A copy of this operation.
    pub fn duplicate(&self) -> (r: Operation)
        ensures
            r@ == self@,
    {
        match self {
            Operation::GetView => Operation::GetView,
            Operation::InputChange { screen_id, field_id, value } => Operation::InputChange {
                screen_id: screen_id.clone(),
                field_id: field_id.clone(),
                value: value.clone(),
            },
            Operation::ButtonClick { screen_id, button_id } => Operation::ButtonClick {
                screen_id: screen_id.clone(),
                button_id: button_id.clone(),
            },
        }
    }
}

/// Why an operation failed.
pub enum DispatchError {
    /// The runtime lock could not be acquired.
    RuntimeUnavailable,
    /// The runtime raised while loading the module, looking up or running a handler.
    ScriptFault(String),
    /// The rendered view has no structured counterpart.
    Conversion(ConversionError),
}

/// The mathematical value of a `DispatchError`.
pub enum ErrModel {
    RuntimeUnavailable,
    ScriptFault(Seq<char>),
    Conversion(ConversionError),
}

impl View for DispatchError {
    type V = ErrModel;

    open spec fn view(&self) -> ErrModel {
        match self {
            DispatchError::RuntimeUnavailable => ErrModel::RuntimeUnavailable,
            DispatchError::ScriptFault(m) => ErrModel::ScriptFault(m@),
            DispatchError::Conversion(e) => ErrModel::Conversion(*e),
        }
    }
}

/// The message that stands for an error at the host boundary.
pub open spec fn message_of(e: ErrModel) -> Seq<char> {
    match e {
        ErrModel::RuntimeUnavailable => "could not lock the script runtime"@,
        ErrModel::ScriptFault(m) => m,
        ErrModel::Conversion(_) => "the view holds a string that is not valid UTF-8"@,
    }
}

impl DispatchError {
    /// Flattens the error to the message handed to the host.
    pub fn message(&self) -> (r: String)
        ensures
            r@ == message_of(self@),
    {
        match self {
            DispatchError::RuntimeUnavailable => "could not lock the script runtime".to_owned(),
            DispatchError::ScriptFault(m) => m.clone(),
            DispatchError::Conversion(_) => "the view holds a string that is not valid UTF-8".to_owned(),
        }
    }
}

/// Where an operation stands.
#[derive(PartialEq, Eq, Structural, Clone, Copy)]
pub enum Phase {
    /// Waiting for the runtime lock.
    AwaitLock,
    /// Holding the lock; the UI module is being loaded.
    AwaitModule,
    /// Holding the lock; the operation's handler is running.
    AwaitHandler,
    /// Holding the lock; `build_current_view` is running.
    AwaitView,
    /// The operation has its result and the lock is released.
    Done,
}

/// The outcome of the last action, reported by the caller.
pub enum Event {
    /// The runtime lock was acquired.
    Locked,
    /// The runtime lock is poisoned and cannot be acquired.
    Poisoned,
    /// The UI module was loaded.
    Loaded,
    /// The handler returned; its results are discarded.
    Returned,
    /// `build_current_view` returned this value.
    Viewed(LuaValue),
    /// The runtime raised, with this message.
    Raised(String),
}

/// The mathematical value of an `Event`.
pub enum EventModel {
    Locked,
    Poisoned,
    Loaded,
    Returned,
    Viewed(LuaModel),
    Raised(Seq<char>),
}

impl Event {
    /// The mathematical value of this event.
    pub open spec fn model(&self) -> EventModel {
        match self {
            Event::Locked => EventModel::Locked,
            Event::Poisoned => EventModel::Poisoned,
            Event::Loaded => EventModel::Loaded,
            Event::Returned => EventModel::Returned,
            Event::Viewed(v) => EventModel::Viewed(v.model()),
            Event::Raised(m) => EventModel::Raised(m@),
        }
    }
}

/// What the caller does next.
pub enum Action {
    /// Load the UI module by name (`UI_MODULE`).
    LoadModule,
    /// Call the handler of this operation with its arguments.
    Handler(Operation),
    /// Call `build_current_view()`.
    Render,
    /// Release the lock and hand this result to the host.
    Finish(Result<JsonValue, DispatchError>),
}

/// The mathematical value of an `Action`.
pub enum ActionModel {
    LoadModule,
    Handler(OpModel),
    Render,
    Finish(Result<JsonModel, ErrModel>),
}

impl Action {
    /// The mathematical value of this action.
    pub open spec fn model(&self) -> ActionModel {
        match self {
            Action::LoadModule => ActionModel::LoadModule,
            Action::Handler(op) => ActionModel::Handler(op@),
            Action::Render => ActionModel::Render,
            Action::Finish(Ok(j)) => ActionModel::Finish(Ok(j.model())),
            Action::Finish(Err(e)) => ActionModel::Finish(Err(e@)),
        }
    }
}

/// The events each phase expects.
pub open spec fn accepts_spec(phase: Phase, ev: EventModel) -> bool {
    match phase {
        Phase::AwaitLock => ev is Locked || ev is Poisoned,
        Phase::AwaitModule => ev is Loaded || ev is Raised,
        Phase::AwaitHandler => ev is Returned || ev is Raised,
        Phase::AwaitView => ev is Viewed || ev is Raised,
        Phase::Done => false,
    }
}

/// The result of an operation whose view rendered to `v`.
pub open spec fn rendered(v: LuaModel) -> Result<JsonModel, ErrModel> {
    match to_json(v) {
        Ok(j) => Ok(j),
        Err(e) => Err(ErrModel::Conversion(e)),
    }
}

/// One step of the protocol: the next phase and the action to perform.
pub open spec fn transition(phase: Phase, op: OpModel, ev: EventModel) -> (Phase, ActionModel) {
    match (phase, ev) {
        (Phase::AwaitLock, EventModel::Locked) => (Phase::AwaitModule, ActionModel::LoadModule),
        (Phase::AwaitModule, EventModel::Loaded) => (Phase::AwaitHandler, ActionModel::Handler(op)),
        (Phase::AwaitHandler, EventModel::Returned) => (Phase::AwaitView, ActionModel::Render),
        (Phase::AwaitView, EventModel::Viewed(v)) => (Phase::Done, ActionModel::Finish(rendered(v))),
        (_, EventModel::Raised(m)) => (Phase::Done, ActionModel::Finish(Err(ErrModel::ScriptFault(m)))),
        _ => (Phase::Done, ActionModel::Finish(Err(ErrModel::RuntimeUnavailable))),
    }
}

/// The lock is held from its acquisition until the result is handed over.
pub open spec fn holds_lock(phase: Phase) -> bool {
    phase != Phase::AwaitLock && phase != Phase::Done
}

/// One host operation in progress.
pub struct Dispatch {
    pub op: Operation,
    pub phase: Phase,
}

impl Dispatch {
    /// Starts an operation; the caller first acquires the runtime lock.
    pub fn new(op: Operation) -> (r: Dispatch)
        ensures
            r.op@ == op@,
            r.phase == Phase::AwaitLock,
    {
        Dispatch { op, phase: Phase::AwaitLock }
    }

    /// Whether the current phase expects this event.
    pub fn accepts(&self, ev: &Event) -> (r: bool)
        ensures
            r == accepts_spec(self.phase, ev.model()),
    {
        match self.phase {
            Phase::AwaitLock => matches!(ev, Event::Locked) || matches!(ev, Event::Poisoned),
            Phase::AwaitModule => matches!(ev, Event::Loaded) || matches!(ev, Event::Raised(_)),
            Phase::AwaitHandler => matches!(ev, Event::Returned) || matches!(ev, Event::Raised(_)),
            Phase::AwaitView => matches!(ev, Event::Viewed(_)) || matches!(ev, Event::Raised(_)),
            Phase::Done => false,
        }
    }

    /// Takes the outcome of the last action and decides the next one.
    pub fn step(&mut self, ev: Event) -> (r: Action)
        requires
            accepts_spec(old(self).phase, ev.model()),
        ensures
            (final(self).phase, r.model()) == transition(old(self).phase, old(self).op@, ev.model()),
            final(self).op@ == old(self).op@,
    {
        match ev {
            Event::Locked => {
                self.phase = Phase::AwaitModule;
                Action::LoadModule
            },
            Event::Poisoned => {
                self.phase = Phase::Done;
                Action::Finish(Err(DispatchError::RuntimeUnavailable))
            },
            Event::Loaded => {
                self.phase = Phase::AwaitHandler;
                Action::Handler(self.op.duplicate())
            },
            Event::Returned => {
                self.phase = Phase::AwaitView;
                Action::Render
            },
            Event::Viewed(v) => {
                self.phase = Phase::Done;
                let r = lua_value_to_json(&v);
                match r {
                    Ok(j) => Action::Finish(Ok(j)),
                    Err(e) => Action::Finish(Err(DispatchError::Conversion(e))),
                }
            },
            Event::Raised(m) => {
                self.phase = Phase::Done;
                Action::Finish(Err(DispatchError::ScriptFault(m)))
            },
        }
    }
}

/// A handler that raises ends its operation with that fault: the view is not
/// built, and a finished operation accepts no further event.
pub proof fn lemma_raising_handler_skips_render(op: OpModel, m: Seq<char>)
    ensures
        transition(Phase::AwaitHandler, op, EventModel::Raised(m)) == (
            Phase::Done,
            ActionModel::Finish(Err(ErrModel::ScriptFault(m))),
        ),
        forall|ev: EventModel| !accepts_spec(Phase::Done, ev),
{
}

/// The view is built only right after the operation's handler returned.
pub proof fn lemma_render_follows_handler(phase: Phase, op: OpModel, ev: EventModel)
    requires
        accepts_spec(phase, ev),
        transition(phase, op, ev).1 is Render,
    ensures
        phase == Phase::AwaitHandler,
        ev is Returned,
{
}

/// Each operation is one critical section: script actions (module load, handler,
/// render) are issued only while the lock is held, the lock is entered only on
/// `Locked`, and it is left exactly when the result is handed over.
pub proof fn lemma_one_critical_section(phase: Phase, op: OpModel, ev: EventModel)
    requires
        accepts_spec(phase, ev),
    ensures
        (transition(phase, op, ev).1 is Finish) <==> transition(phase, op, ev).0 == Phase::Done,
        !(transition(phase, op, ev).1 is Finish) ==> holds_lock(transition(phase, op, ev).0),
        !holds_lock(phase) && holds_lock(transition(phase, op, ev).0) ==> ev is Locked,
{
}

} // verus!
