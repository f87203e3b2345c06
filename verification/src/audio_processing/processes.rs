//! Processes: what runs on a voice before each of its samples. The one kind
//! there is, the sequencer, retriggers its voice on the beats of a bar: each
//! step fires on the first sample of a bar on which the tempo has reached or
//! passed the step's beat, and a beat that went by unseen waits for the next
//! bar.

use vstd::prelude::*;
use crate::audio_processing::blast_rand::X128P;
use crate::audio_processing::blast_time::{TempoMode, TempoState, TempoUnit};
use crate::audio_processing::fixed::Fixed;

verus! {

/// Where a voice or a process has its tempo: a tempo of its own, the tempo
/// of the voice that it belongs to, or the shared tempo at a place in the
/// engine's table.
#[derive(Debug, Clone, Copy, PartialEq)]
pub enum TempoLink {
    Own(TempoState),
    Owner,
    Shared(usize),
}

impl TempoLink {
    /// The tempo that the link leads to, given the tempo of the owning voice
    /// and the engine's table. A link that leads nowhere gives a tempo that
    /// does not run.
    pub open spec fn spec_resolve(self, owner: TempoState, tempi: Seq<TempoState>) -> TempoState {
        match self {
            TempoLink::Own(t) => t,
            TempoLink::Owner => owner,
            TempoLink::Shared(i) => if i < tempi.len() {
                tempi[i as int]
            } else {
                idle()
            },
        }
    }

    /// The link with its own tempo, where it has one of mode `Process`,
    /// advanced by one sample.
    pub open spec fn spec_tick(self) -> TempoLink {
        match self {
            TempoLink::Own(t) => if t.mode == TempoMode::Process {
                TempoLink::Own(t.spec_update(1))
            } else {
                self
            },
            _ => self,
        }
    }

    /// Advances a tempo of the link's own that a process owns.
    pub fn tick(&mut self)
        ensures
            *final(self) == old(self).spec_tick(),
    {
        match self {
            TempoLink::Own(t) => {
                if t.mode == TempoMode::Process {
                    t.update(1);
                }
            },
            _ => {},
        }
    }

    /// The tempo that the link leads to.
    pub fn resolve(&self, owner: &TempoState, tempi: &Vec<TempoState>) -> (r: TempoState)
        ensures
            r == self.spec_resolve(*owner, tempi@),
    {
        match self {
            TempoLink::Own(t) => *t,
            TempoLink::Owner => *owner,
            TempoLink::Shared(i) => {
                if *i < tempi.len() {
                    tempi[*i]
                } else {
                    TempoState::new()
                }
            },
        }
    }
}

/// A tempo without owner or period that does not run.
pub open spec fn idle() -> TempoState {
    TempoState {
        mode: TempoMode::TBD,
        unit: TempoUnit::Samples,
        interval: Fixed { raw: 0 },
        active: false,
        current: 0,
    }
}

/// What a process may read and change of its voice.
#[derive(Debug, Clone, Copy, PartialEq)]
pub struct VoiceState {
    pub active: bool,
    pub position: Fixed,
    pub end: usize,
    pub velocity: Fixed,
    pub gain: Fixed,
    pub tempo: TempoLink,
}

impl VoiceState {
    /// Where playing starts: at the first frame when the voice plays
    /// forwards, at the last when it plays backwards.
    pub open spec fn spec_start_position(self) -> Fixed {
        if self.velocity.raw >= 0 {
            Fixed { raw: 0 }
        } else {
            Fixed::spec_from_usize(self.end)
        }
    }

    /// The voice set back to where playing starts.
    pub open spec fn spec_retrigger(self) -> VoiceState {
        VoiceState { position: self.spec_start_position(), ..self }
    }

    /// Sets the voice back to where playing starts.
    pub fn retrigger(&mut self)
        ensures
            *final(self) == old(self).spec_retrigger(),
    {
        self.position = if self.velocity.raw >= 0 {
            Fixed { raw: 0 }
        } else {
            Fixed::from_usize(self.end)
        };
    }
}

/// The tempo as it was one sample earlier, for one that has counted a sample.
pub open spec fn spec_earlier(tempo: TempoState) -> TempoState {
    TempoState { current: (tempo.current - 1) as u64, ..tempo }
}

/// The tempo as it was one sample earlier.
pub fn earlier(tempo: &TempoState) -> (r: TempoState)
    requires
        tempo.current > 0,
    ensures
        r == spec_earlier(*tempo),
{
    TempoState {
        mode: tempo.mode,
        unit: tempo.unit,
        interval: tempo.interval,
        active: tempo.active,
        current: tempo.current - 1,
    }
}

/// A sequencer: `period` beats to the bar, the beats on which it may fire,
/// the chance in percent of each, and the step that is due next.
#[derive(Debug, Clone, PartialEq)]
pub struct SeqState {
    pub active: bool,
    pub period: usize,
    pub tempo: TempoLink,
    pub steps: Vec<Fixed>,
    pub chance: Vec<Fixed>,
    pub jit: Vec<Fixed>,
    pub rng: X128P,
    pub idx: usize,
}

/// A sequencer as a value.
pub struct SeqModel {
    pub active: bool,
    pub period: usize,
    pub tempo: TempoLink,
    pub steps: Seq<Fixed>,
    pub chance: Seq<Fixed>,
    pub jit: Seq<Fixed>,
    pub rng: X128P,
    pub idx: usize,
}

impl View for SeqState {
    type V = SeqModel;

    open spec fn view(&self) -> SeqModel {
        SeqModel {
            active: self.active,
            period: self.period,
            tempo: self.tempo,
            steps: self.steps@,
            chance: self.chance@,
            jit: self.jit@,
            rng: self.rng,
            idx: self.idx,
        }
    }
}

impl SeqModel {
    /// The place in the bar, as a raw number of beats, that `tempo` is at.
    pub open spec fn spec_beat(self, tempo: TempoState) -> int {
        tempo.spec_current().raw as int % (self.period as int * 65536)
    }

    /// The number of whole bars that `tempo` has counted.
    pub open spec fn spec_bar(self, tempo: TempoState) -> int {
        tempo.spec_current().raw as int / (self.period as int * 65536)
    }

    /// Whether `tempo` is at or beyond the beat of the step that is due.
    pub open spec fn spec_reached(self, tempo: TempoState) -> bool {
        self.spec_beat(tempo) >= self.steps[self.idx as int].raw
    }

    /// Whether `tempo` reaches the beat of the step that is due on this very
    /// sample: it is at or beyond the beat, and one sample earlier it was in
    /// another bar or not yet at the beat. A tempo that has counted nothing
    /// has no sample earlier.
    pub open spec fn spec_crosses(self, tempo: TempoState) -> bool {
        &&& self.spec_reached(tempo)
        &&& tempo.current == 0 || self.spec_bar(spec_earlier(tempo)) != self.spec_bar(tempo)
            || !self.spec_reached(spec_earlier(tempo))
    }

    /// Whether the step that is due fires: on the first sample of a bar on
    /// which its beat is reached or passed, also where no sample falls on the
    /// beat itself. A sequencer that is off, a tempo that does not run or
    /// has no period, and a bar without beats or steps have no step due.
    pub open spec fn spec_due(self, tempo: TempoState) -> bool {
        &&& self.active
        &&& tempo.active
        &&& tempo.interval.raw > 0
        &&& self.period > 0
        &&& self.idx < self.steps.len()
        &&& self.idx < self.chance.len()
        &&& self.spec_crosses(tempo)
    }

    /// The number from 0 to 99 that the next draw gives.
    pub open spec fn spec_draw(self) -> int {
        X128P::spec_scale(self.rng.spec_output(), 0, 100)
    }

    /// Whether the step that is due retriggers the voice: the draw is below
    /// the step's chance.
    pub open spec fn spec_hits(self) -> bool {
        self.spec_draw() < self.chance[self.idx as int].spec_trunc()
    }

    /// The sequencer after one sample: where a step was due, a number was
    /// drawn and the next step is due, after the last one the first.
    pub open spec fn spec_step(self, tempo: TempoState) -> SeqModel {
        if self.spec_due(tempo) {
            SeqModel {
                rng: self.rng.spec_step(),
                idx: if self.idx + 1 < self.steps.len() {
                    (self.idx + 1) as usize
                } else {
                    0
                },
                ..self
            }
        } else {
            self
        }
    }

    /// The voice after one sample of the sequencer.
    pub open spec fn spec_voice(self, voice: VoiceState, tempo: TempoState) -> VoiceState {
        if self.spec_due(tempo) && self.spec_hits() {
            voice.spec_retrigger()
        } else {
            voice
        }
    }

    /// The sequencer with the first step due.
    pub open spec fn spec_reset(self) -> SeqModel {
        SeqModel { idx: 0, ..self }
    }
}

/// The sequencer process.
#[derive(Debug, Clone, PartialEq)]
pub struct Sequencer {
    pub state: SeqState,
}

impl Sequencer {
    /// Runs the sequencer for one sample of its voice, with `tempo` the
    /// tempo that it follows.
    pub fn process(&mut self, voice: &mut VoiceState, tempo: &TempoState)
        ensures
            final(self).state@ == old(self).state@.spec_step(*tempo),
            *final(voice) == old(self).state@.spec_voice(*old(voice), *tempo),
    {
        if !self.state.active || !tempo.active || tempo.interval.raw <= 0 {
            return;
        }
        if self.state.period == 0 || self.state.idx >= self.state.steps.len() || self.state.idx
            >= self.state.chance.len() {
            return;
        }
        let at = self.state.idx;
        let step = self.state.steps[at];
        let length: u128 = (self.state.period as u128) * 65536u128;
        let now = tempo.current();
        let beat: u128 = (now.raw as u128) % length;
        if step.raw >= 0 && beat < step.raw as u128 {
            return;
        }
        if tempo.current > 0 {
            let then = earlier(tempo).current();
            let bar: u128 = (now.raw as u128) / length;
            let bar_then: u128 = (then.raw as u128) / length;
            let beat_then: u128 = (then.raw as u128) % length;
            if bar_then == bar && (step.raw < 0 || beat_then >= step.raw as u128) {
                return;
            }
        }
        let rand = self.state.rng.next_i64_range(0, 100);
        if rand < self.state.chance[at].trunc() {
            voice.retrigger();
        }
        if at + 1 < self.state.steps.len() {
            self.state.idx = at + 1;
        } else {
            self.state.idx = 0;
        }
    }

    /// Makes the first step due.
    pub fn reset(&mut self)
        ensures
            final(self).state@ == old(self).state@.spec_reset(),
    {
        self.state.idx = 0;
    }

    /// Lets the sequencer follow another tempo.
    pub fn update_tempo(&mut self, link: TempoLink)
        ensures
            final(self).state@ == (SeqModel { tempo: link, ..old(self).state@ }),
    {
        self.state.tempo = link;
    }
}

/// A process of a voice or a group.
#[derive(Debug, Clone, PartialEq)]
pub enum Process {
    Sequencer(Sequencer),
}

/// A process as a value.
pub enum ProcessModel {
    Sequencer(SeqModel),
}

impl View for Process {
    type V = ProcessModel;

    open spec fn view(&self) -> ProcessModel {
        match *self {
            Process::Sequencer(s) => ProcessModel::Sequencer(s.state@),
        }
    }
}

impl ProcessModel {
    pub open spec fn link(self) -> TempoLink {
        match self {
            ProcessModel::Sequencer(s) => s.tempo,
        }
    }

    /// The place of the step that is due next.
    pub open spec fn due(self) -> usize {
        match self {
            ProcessModel::Sequencer(s) => s.idx,
        }
    }

    /// The process following `link`.
    pub open spec fn with_link(self, link: TempoLink) -> ProcessModel {
        match self {
            ProcessModel::Sequencer(s) => ProcessModel::Sequencer(SeqModel { tempo: link, ..s }),
        }
    }

    /// The process after one sample.
    pub open spec fn spec_step(self, tempo: TempoState) -> ProcessModel {
        match self {
            ProcessModel::Sequencer(s) => ProcessModel::Sequencer(s.spec_step(tempo)),
        }
    }

    /// The voice after one sample of the process.
    pub open spec fn spec_voice(self, voice: VoiceState, tempo: TempoState) -> VoiceState {
        match self {
            ProcessModel::Sequencer(s) => s.spec_voice(voice, tempo),
        }
    }

    /// The process with the tempo that it owns, where it owns one, advanced by
    /// one sample.
    pub open spec fn spec_tick(self) -> ProcessModel {
        self.with_link(self.link().spec_tick())
    }

    /// The process with the tempo that it owns, where it owns one, running
    /// from zero.
    pub open spec fn spec_start(self) -> ProcessModel {
        match self.link() {
            TempoLink::Own(t) => if t.mode == TempoMode::Process {
                self.with_link(TempoLink::Own(TempoState { active: true, current: 0, ..t }))
            } else {
                self
            },
            _ => self,
        }
    }

    /// The process with the tempo that it owns, where it owns one, halted
    /// at zero.
    pub open spec fn spec_stop(self) -> ProcessModel {
        match self.link() {
            TempoLink::Own(t) => if t.mode == TempoMode::Process {
                self.with_link(TempoLink::Own(TempoState { active: false, current: 0, ..t }))
            } else {
                self
            },
            _ => self,
        }
    }

    /// The process with its first step due.
    pub open spec fn spec_reset(self) -> ProcessModel {
        match self {
            ProcessModel::Sequencer(s) => ProcessModel::Sequencer(s.spec_reset()),
        }
    }
}

impl Process {
    pub fn link(&self) -> (r: TempoLink)
        ensures
            r == self@.link(),
    {
        match self {
            Process::Sequencer(s) => s.state.tempo,
        }
    }

    /// Runs the tempo that the process owns, where it owns one, from zero.
    pub fn start(&mut self)
        ensures
            final(self)@ == old(self)@.spec_start(),
    {
        match self {
            Process::Sequencer(inner) => match &mut inner.state.tempo {
                TempoLink::Own(t) => {
                    if t.mode == TempoMode::Process {
                        t.start();
                    }
                },
                _ => {},
            },
        }
    }

    /// Halts the tempo that the process owns, where it owns one, at zero.
    pub fn stop(&mut self)
        ensures
            final(self)@ == old(self)@.spec_stop(),
    {
        match self {
            Process::Sequencer(inner) => match &mut inner.state.tempo {
                TempoLink::Own(t) => {
                    if t.mode == TempoMode::Process {
                        t.stop();
                    }
                },
                _ => {},
            },
        }
    }

    /// Advances the tempo that the process owns, where it owns one.
    pub fn tick(&mut self)
        ensures
            final(self)@ == old(self)@.spec_tick(),
    {
        match self {
            Process::Sequencer(inner) => inner.state.tempo.tick(),
        }
    }

    /// Runs the process for one sample of its voice.
    pub fn process(&mut self, voice: &mut VoiceState, tempo: &TempoState)
        ensures
            final(self)@ == old(self)@.spec_step(*tempo),
            *final(voice) == old(self)@.spec_voice(*old(voice), *tempo),
    {
        match self {
            Process::Sequencer(inner) => inner.process(voice, tempo),
        }
    }

    /// Makes the first step due.
    pub fn reset(&mut self)
        ensures
            final(self)@ == old(self)@.spec_reset(),
    {
        match self {
            Process::Sequencer(inner) => inner.reset(),
        }
    }

    /// Lets the process follow another tempo.
    pub fn update_tempo(&mut self, link: TempoLink)
        ensures
            final(self)@ == old(self)@.with_link(link),
    {
        match self {
            Process::Sequencer(inner) => inner.update_tempo(link),
        }
    }
}

} // verus!
