//! Recording control: the configuration that clients change and the event producer reads
//! each tick, and the auto-trigger / auto-stop decisions.
use vstd::prelude::*;

verus! {

/// Lookback settings of a device.
#[derive(Debug, Clone, Copy, PartialEq, Eq, Structural)]
pub struct Lookback {
    pub enabled: bool,
    pub maximum_duration_us: u64,
    pub maximum_size_bytes: usize,
}

impl Default for Lookback {
    fn default() -> (r: Self)
        ensures
            !r.enabled,
            r.maximum_duration_us == 10_000_000,
            r.maximum_size_bytes == 1_024_000_000,
    {
        Lookback { enabled: false, maximum_duration_us: 10_000_000, maximum_size_bytes: 1_024_000_000 }
    }
}

/// Auto-stop settings of a device.
#[derive(Debug, Clone, Copy, PartialEq, Eq, Structural)]
pub struct Autostop {
    pub enabled: bool,
    pub duration_us: u64,
}

impl Default for Autostop {
    fn default() -> (r: Self)
        ensures
            !r.enabled,
            r.duration_us == 10_000_000,
    {
        Autostop { enabled: false, duration_us: 10_000_000 }
    }
}

/// Auto-trigger settings of a device. The threshold is a single-precision ratio, kept as
/// its bits: comparing event rates against it is the producer's work.
#[derive(Debug, Clone, Copy, PartialEq, Eq, Structural)]
pub struct Autotrigger {
    pub enabled: bool,
    pub short_sliding_window: usize,
    pub long_sliding_window: usize,
    pub threshold_bits: u32,
}

/// The bits of the single-precision value 10.0.
pub const DEFAULT_THRESHOLD_BITS: u32 = 0x4120_0000;

impl Default for Autotrigger {
    fn default() -> (r: Self)
        ensures
            !r.enabled,
            r.short_sliding_window == 1,
            r.long_sliding_window == 120,
            r.threshold_bits == DEFAULT_THRESHOLD_BITS,
    {
        Autotrigger {
            enabled: false,
            short_sliding_window: 1,
            long_sliding_window: 120,
            threshold_bits: DEFAULT_THRESHOLD_BITS,
        }
    }
}

/// What a client asked the producer to do with recordings.
#[derive(Debug, Clone, PartialEq, Eq)]
pub enum RecordAction {
    Continue,
    Start(String),
    Stop,
}

/// The settings shared by a device's clients and its event producer.
pub struct RecordConfiguration {
    pub action: RecordAction,
    pub lookback: Lookback,
    pub autostop: Autostop,
    pub autotrigger: Autotrigger,
}

impl RecordConfiguration {
    /// The configuration of a new device: no pending action, every feature off.
    pub fn new() -> (r: RecordConfiguration)
        ensures
            r.action == RecordAction::Continue,
            r.lookback == (Lookback {
                enabled: false,
                maximum_duration_us: 10_000_000,
                maximum_size_bytes: 1_024_000_000,
            }),
            r.autostop == (Autostop { enabled: false, duration_us: 10_000_000 }),
            r.autotrigger == (Autotrigger {
                enabled: false,
                short_sliding_window: 1,
                long_sliding_window: 120,
                threshold_bits: DEFAULT_THRESHOLD_BITS,
            }),
    {
        RecordConfiguration {
            action: RecordAction::Continue,
            lookback: Lookback::default(),
            autostop: Autostop::default(),
            autotrigger: Autotrigger::default(),
        }
    }

    /// Reads the pending action and resets it to `Continue`: each request is acted on once.
    pub fn take_action(&mut self) -> (r: RecordAction)
        ensures
            r == old(self).action,
            final(self).action == RecordAction::Continue,
            final(self).lookback == old(self).lookback,
            final(self).autostop == old(self).autostop,
            final(self).autotrigger == old(self).autotrigger,
    {
        let mut action = RecordAction::Continue;
        std::mem::swap(&mut action, &mut self.action);
        action
    }
}

/// A client's request about a device's recordings.
#[derive(Debug, Clone, PartialEq, Eq)]
pub enum RecordCommand {
    UpdateLookback(Lookback),
    UpdateAutostop(Autostop),
    UpdateAutotrigger(Autotrigger),
    StartRecording(String),
    StopRecording,
}

impl RecordConfiguration {
    /// Applies a client's request; the producer reads the result at its next tick, and a
    /// later request replaces an earlier one it has not read yet.
    pub fn apply(&mut self, command: RecordCommand)
        ensures
            match command {
                RecordCommand::UpdateLookback(lookback) => *final(self) == (RecordConfiguration {
                    lookback,
                    ..*old(self)
                }),
                RecordCommand::UpdateAutostop(autostop) => *final(self) == (RecordConfiguration {
                    autostop,
                    ..*old(self)
                }),
                RecordCommand::UpdateAutotrigger(autotrigger) => *final(self) == (
                RecordConfiguration { autotrigger, ..*old(self) }),
                RecordCommand::StartRecording(name) => *final(self) == (RecordConfiguration {
                    action: RecordAction::Start(name),
                    ..*old(self)
                }),
                RecordCommand::StopRecording => *final(self) == (RecordConfiguration {
                    action: RecordAction::Stop,
                    ..*old(self)
                }),
            },
    {
        match command {
            RecordCommand::UpdateLookback(lookback) => self.lookback = lookback,
            RecordCommand::UpdateAutostop(autostop) => self.autostop = autostop,
            RecordCommand::UpdateAutotrigger(autotrigger) => self.autotrigger = autotrigger,
            RecordCommand::StartRecording(name) => self.action = RecordAction::Start(name),
            RecordCommand::StopRecording => self.action = RecordAction::Stop,
        }
    }
}

/// What the producer does when the auto-trigger condition holds.
#[derive(Debug, Clone, Copy, PartialEq, Eq, Structural)]
pub enum TriggerResponse {
    /// Auto-trigger is off or did not fire.
    Nothing,
    /// No recording is open: open one.
    Open,
    /// A recording is open: move the auto-stop anchor, so that auto-stop measures quiet
    /// time rather than recording length.
    SlideAnchor,
}

/// The anchor after the auto-trigger response to one USB buffer.
pub open spec fn anchor_after_trigger(
    reference_t: u64,
    autotrigger: Autotrigger,
    fired: bool,
    recording_open: bool,
    previous_t: u64,
) -> u64 {
    if autotrigger.enabled && fired && recording_open {
        previous_t
    } else {
        reference_t
    }
}

/// Whether auto-stop is due at `current_t` for a given anchor.
pub open spec fn autostop_due_at(reference_t: u64, autostop: Autostop, current_t: u64) -> bool {
    autostop.enabled && current_t >= reference_t + autostop.duration_us
}

/// The auto-stop anchor of a device's producer: the device time from which auto-stop
/// measures.
pub struct AutostopAnchor {
    pub reference_t: u64,
}

impl AutostopAnchor {
    pub fn new() -> (r: AutostopAnchor)
        ensures
            r.reference_t == 0,
    {
        AutostopAnchor { reference_t: 0 }
    }

    /// A recording was opened at device time `current_t`.
    pub fn recording_opened(&mut self, current_t: u64)
        ensures
            final(self).reference_t == current_t,
    {
        self.reference_t = current_t;
    }

    /// The response to a USB buffer after which the aggregated ratio did or did not reach
    /// the threshold (`fired`). Where a recording is open, the anchor moves to
    /// `previous_t`, the decoder time before that buffer.
    pub fn autotrigger(
        &mut self,
        autotrigger: &Autotrigger,
        fired: bool,
        recording_open: bool,
        previous_t: u64,
    ) -> (r: TriggerResponse)
        ensures
            r == if !(autotrigger.enabled && fired) {
                TriggerResponse::Nothing
            } else if recording_open {
                TriggerResponse::SlideAnchor
            } else {
                TriggerResponse::Open
            },
            final(self).reference_t == anchor_after_trigger(
                old(self).reference_t,
                *autotrigger,
                fired,
                recording_open,
                previous_t,
            ),
    {
        if !(autotrigger.enabled && fired) {
            TriggerResponse::Nothing
        } else if recording_open {
            self.reference_t = previous_t;
            TriggerResponse::SlideAnchor
        } else {
            TriggerResponse::Open
        }
    }

    /// Whether auto-stop closes the recording at device time `current_t`.
    pub fn autostop_due(&self, autostop: &Autostop, current_t: u64) -> (r: bool)
        ensures
            r == autostop_due_at(self.reference_t, *autostop, current_t),
    {
        autostop.enabled && current_t >= self.reference_t && current_t - self.reference_t
            >= autostop.duration_us
    }

    /// When the auto-trigger fires while a recording is open, auto-stop then measures from
    /// the decoder time before the triggering buffer, whatever the anchor was (the
    /// recording's start, or an earlier trigger).
    pub proof fn lemma_autostop_measures_quiet_time(
        reference_t: u64,
        autotrigger: Autotrigger,
        autostop: Autostop,
        previous_t: u64,
        current_t: u64,
    )
        requires
            autotrigger.enabled,
        ensures
            anchor_after_trigger(reference_t, autotrigger, true, true, previous_t) == previous_t,
            autostop_due_at(
                anchor_after_trigger(reference_t, autotrigger, true, true, previous_t),
                autostop,
                current_t,
            ) == (autostop.enabled && current_t - previous_t >= autostop.duration_us),
    {
    }
}

} // verus!
