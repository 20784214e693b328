//! The delivery loop's decisions: what each inbound event does to the loop and the subscriptions.
use vstd::prelude::*;
use crate::manager::{CallbackError, DispatchReport, MqttClientManager};

verus! {

/// The text that lossy UTF-8 decoding makes of `bytes`.
pub uninterp spec fn lossy_text(bytes: Seq<u8>) -> Seq<char>;

/// Relies on `String::from_utf8_lossy`: malformed bytes become replacement characters, never an error.
#[verifier::external_body]
fn decode_lossy(bytes: &Vec<u8>) -> (r: String)
    ensures
        r@ == lossy_text(bytes@),
        bytes@.len() == 0 ==> r@.len() == 0,
{
    String::from_utf8_lossy(bytes.as_slice()).into_owned()
}

/// An event that the connection yields.
pub enum InboundEvent {
    /// A message published on `topic`.
    Publish { topic: String, payload: Vec<u8> },
    /// Any other protocol event.
    Other,
    /// The transport reported a fatal condition.
    ConnectionError { detail: String },
}

/// Whether the loop still delivers.
#[derive(PartialEq, Eq, Structural, Clone, Copy, Debug)]
pub enum LoopState {
    Running,
    Stopped,
}

/// What one event did.
pub enum StepOutcome {
    /// A publish was dispatched; the report says to whom and with what answers.
    Dispatched(DispatchReport),
    /// The event was not a publish.
    Ignored,
    /// The loop is stopped; `cause` is the connection error that stopped it at this step, if any.
    Stopped { cause: Option<String> },
}

/// The state of the delivery loop: running until a connection error or a stop request.
pub struct DeliveryLoop {
    state: LoopState,
}

impl DeliveryLoop {
    /// The loop's state.
    pub closed spec fn state_view(&self) -> LoopState {
        self.state
    }

    /// A loop that runs.
    pub fn new() -> (r: DeliveryLoop)
        ensures
            r.state_view() == LoopState::Running,
    {
        DeliveryLoop { state: LoopState::Running }
    }

    /// The loop's state.
    pub fn state(&self) -> (r: LoopState)
        ensures
            r == self.state_view(),
    {
        self.state
    }

    /// Whether the loop still delivers.
    pub fn is_running(&self) -> (r: bool)
        ensures
            r == (self.state_view() == LoopState::Running),
    {
        self.state == LoopState::Running
    }

    /// Asks the loop to stop; a stopped loop stays stopped.
    pub fn stop(&mut self)
        ensures
            final(self).state_view() == LoopState::Stopped,
    {
        self.state = LoopState::Stopped;
    }

    /// Handles one event: a publish is decoded lossily and dispatched on its topic, another event is
    /// ignored, a connection error stops the loop. A stopped loop does nothing.
    pub fn step<F: Fn(&str) -> bool, C: Fn(String) -> Result<(), CallbackError>>(
        &mut self,
        manager: &MqttClientManager<F, C>,
        event: InboundEvent,
    ) -> (r: StepOutcome)
        requires
            manager.well_formed(),
        ensures
            old(self).state_view() == LoopState::Stopped ==> final(self).state_view() == LoopState::Stopped
                && r == (StepOutcome::Stopped { cause: None }),
            old(self).state_view() == LoopState::Running ==> match event {
                InboundEvent::Publish { topic, payload } => final(self).state_view() == LoopState::Running
                    && (r matches StepOutcome::Dispatched(rep) && rep.describes(
                    manager@,
                    topic@,
                    lossy_text(payload@),
                )),
                InboundEvent::Other => final(self).state_view() == LoopState::Running && r
                    is Ignored,
                InboundEvent::ConnectionError { detail } => final(self).state_view()
                    == LoopState::Stopped && (r matches StepOutcome::Stopped { cause: Some(c) } && c
                    == detail),
            },
    {
        if self.state == LoopState::Stopped {
            return StepOutcome::Stopped { cause: None };
        }
        match event {
            InboundEvent::Publish { topic, payload } => {
                let text = decode_lossy(&payload);
                let report = manager.handle_message(topic.as_str(), text.as_str());
                StepOutcome::Dispatched(report)
            },
            InboundEvent::Other => StepOutcome::Ignored,
            InboundEvent::ConnectionError { detail } => {
                self.state = LoopState::Stopped;
                StepOutcome::Stopped { cause: Some(detail) }
            },
        }
    }
}

} // verus!
