//! The model's one-time initialization: who constructs it, who waits, and
//! what everyone is told afterwards.

use crate::error::EmbedError;
use vstd::prelude::*;

verus! {

/// Where the model handle stands. `M` is the handle.
#[derive(Debug, PartialEq, Eq)]
pub enum ModelState<M> {
    /// Nobody has asked for the model yet.
    Uninitialized,
    /// One caller is constructing the model; the others wait for it.
    Initializing,
    /// The model is loaded. It stays so, with this handle.
    Ready(M),
    /// Loading failed with this cause. It stays so: loading is not tried
    /// again.
    Failed(String),
}

/// What a caller that asks for initialization has to do.
#[derive(Debug, PartialEq, Eq)]
pub enum InitStep {
    /// Construct the model, then report with `finish_initialize`. Only one
    /// caller is ever told so.
    Construct,
    /// Someone else is constructing the model: wait until that is reported,
    /// then ask again.
    Wait,
    /// The model is loaded.
    Ready,
    /// The model could not be loaded.
    Unavailable(EmbedError),
}

impl<M> ModelState<M> {
    /// The answer to a caller that asks for initialization in this state.
    pub open spec fn step(self) -> InitStep {
        match self {
            ModelState::Uninitialized => InitStep::Construct,
            ModelState::Initializing => InitStep::Wait,
            ModelState::Ready(_) => InitStep::Ready,
            ModelState::Failed(cause) => InitStep::Unavailable(EmbedError::ModelUnavailable(cause)),
        }
    }

    /// The state after a caller asked for initialization.
    pub open spec fn after_begin(self) -> Self {
        match self {
            ModelState::Uninitialized => ModelState::Initializing,
            _ => self,
        }
    }

    /// The state after a construction was reported to have ended in
    /// `outcome`. Only the construction that is under way counts.
    pub open spec fn after_finish(self, outcome: Result<M, String>) -> Self {
        match self {
            ModelState::Initializing => match outcome {
                Ok(handle) => ModelState::Ready(handle),
                Err(cause) => ModelState::Failed(cause),
            },
            _ => self,
        }
    }

    /// The state before anyone asked for the model.
    pub fn new() -> (state: Self)
        ensures
            state == ModelState::<M>::Uninitialized,
    {
        ModelState::Uninitialized
    }

    /// Asks for the model to be initialized. The first caller is told to
    /// construct it; every other caller is told to wait while that goes on,
    /// and how it ended once it has.
    pub fn begin_initialize(&mut self) -> (step: InitStep)
        ensures
            step == old(self).step(),
            *final(self) == old(self).after_begin(),
    {
        let step = match &*self {
            ModelState::Uninitialized => InitStep::Construct,
            ModelState::Initializing => InitStep::Wait,
            ModelState::Ready(_) => InitStep::Ready,
            ModelState::Failed(cause) => InitStep::Unavailable(
                EmbedError::ModelUnavailable(cause.clone()),
            ),
        };
        match step {
            InitStep::Construct => {
                *self = ModelState::Initializing;
            },
            _ => {},
        }
        step
    }

    /// Reports how the construction ended. A success makes the model ready
    /// with the handle given; a failure is kept and told to every caller
    /// from then on. A report with no construction under way changes
    /// nothing, and its handle is dropped.
    pub fn finish_initialize(&mut self, outcome: Result<M, String>)
        ensures
            *final(self) == old(self).after_finish(outcome),
    {
        let under_way = match &*self {
            ModelState::Initializing => true,
            _ => false,
        };
        if under_way {
            match outcome {
                Ok(handle) => {
                    *self = ModelState::Ready(handle);
                },
                Err(cause) => {
                    *self = ModelState::Failed(cause);
                },
            }
        }
    }

    /// The handle of the model, if it is loaded; else why a call cannot be
    /// served now: the recorded cause if loading failed, and nothing if
    /// loading has not ended yet.
    pub fn handle(&self) -> (handle: Result<&M, Option<EmbedError>>)
        ensures
            match *self {
                ModelState::Ready(model) => handle == Ok::<&M, Option<EmbedError>>(&model),
                ModelState::Failed(cause) => handle == Err::<&M, Option<EmbedError>>(
                    Some(EmbedError::ModelUnavailable(cause)),
                ),
                _ => handle == Err::<&M, Option<EmbedError>>(None),
            },
    {
        match self {
            ModelState::Ready(model) => Ok(model),
            ModelState::Failed(cause) => Err(Some(EmbedError::ModelUnavailable(cause.clone()))),
            _ => Err(None),
        }
    }
}

/// One step of the model's initialization.
pub ghost enum InitEvent<M> {
    /// A caller asks for the model to be initialized.
    Begin,
    /// A construction is reported to have ended.
    Finish(Result<M, String>),
}

/// The state after a sequence of steps.
pub open spec fn initialized<M>(state: ModelState<M>, events: Seq<InitEvent<M>>) -> ModelState<M>
    decreases events.len(),
{
    if events.len() == 0 {
        state
    } else {
        match events.last() {
            InitEvent::Begin => initialized(state, events.drop_last()).after_begin(),
            InitEvent::Finish(outcome) => initialized(state, events.drop_last()).after_finish(
                outcome,
            ),
        }
    }
}

/// How often, in a sequence of steps, a caller was told to construct the
/// model.
pub open spec fn constructions<M>(state: ModelState<M>, events: Seq<InitEvent<M>>) -> nat
    decreases events.len(),
{
    if events.len() == 0 {
        0
    } else {
        let told = initialized(state, events.drop_last()).step();
        if events.last() is Begin && told is Construct {
            constructions(state, events.drop_last()) + 1
        } else {
            constructions(state, events.drop_last())
        }
    }
}

/// How often, in a sequence of steps, a caller asked for initialization.
pub open spec fn requests_to_initialize<M>(events: Seq<InitEvent<M>>) -> nat
    decreases events.len(),
{
    if events.len() == 0 {
        0
    } else if events.last() is Begin {
        requests_to_initialize(events.drop_last()) + 1
    } else {
        requests_to_initialize(events.drop_last())
    }
}

proof fn lemma_constructed_once<M>(events: Seq<InitEvent<M>>)
    ensures
        requests_to_initialize(events) == 0 ==> constructions(ModelState::<M>::Uninitialized, events)
            == 0 && initialized(ModelState::<M>::Uninitialized, events) is Uninitialized,
        requests_to_initialize(events) > 0 ==> constructions(ModelState::<M>::Uninitialized, events)
            == 1 && !(initialized(ModelState::<M>::Uninitialized, events) is Uninitialized),
    decreases events.len(),
{
    if events.len() > 0 {
        lemma_constructed_once(events.drop_last());
    }
}

/// The model is constructed exactly once: however many callers ask for
/// initialization, and in whatever order they and the reports of
/// construction come, exactly one of them is told to construct the model,
/// and none if nobody asks.
pub proof fn theorem_model_is_constructed_once<M>(events: Seq<InitEvent<M>>)
    ensures
        constructions(ModelState::<M>::Uninitialized, events) == (if requests_to_initialize(events)
            > 0 {
            1nat
        } else {
            0nat
        }),
{
    lemma_constructed_once(events);
}

/// How initialization ended is final: once the model is ready or has
/// failed, no step changes that, the handle or the cause stay the same, and
/// nobody is told to construct the model again.
pub proof fn theorem_outcome_of_initialization_is_final<M>(
    state: ModelState<M>,
    events: Seq<InitEvent<M>>,
)
    requires
        state is Ready || state is Failed,
    ensures
        initialized(state, events) == state,
        constructions(state, events) == 0,
    decreases events.len(),
{
    if events.len() > 0 {
        theorem_outcome_of_initialization_is_final(state, events.drop_last());
    }
}

} // verus!
