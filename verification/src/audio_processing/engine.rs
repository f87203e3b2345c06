//! The engine on the audio thread: voices, groups and tempo contexts, the
//! mixer that plays them, and the commands that change them.
//!
//! Tempi that more than one thing follows (those of groups and of tempo
//! contexts) stand in one table, `tempi`, and are referred to by their place
//! in it. The table only grows, so a place never changes its meaning.

use vstd::prelude::*;
use crate::audio_processing::blast_time::{TempoMode, TempoState};
use crate::audio_processing::blast_time::clock::Clock;
use crate::audio_processing::blast_time::sample_rate::SampleRate;
use crate::audio_processing::fixed::{Fixed, clamp_i16, trunc_div};
use crate::audio_processing::lists::views;
use crate::audio_processing::processes::{Process, ProcessModel, TempoLink, VoiceState, idle};
use crate::file_parsing::decode_helpers::{AudioFile, AudioModel};

verus! {

/// A playing instance of a track.
#[derive(Debug, Clone, PartialEq)]
pub struct Voice {
    pub samples: Vec<i16>,
    pub sample_rate: u32,
    pub channels: usize,
    pub state: VoiceState,
    pub processes: Vec<Process>,
}

/// A voice as a value.
pub struct VoiceModel {
    pub samples: Seq<i16>,
    pub sample_rate: u32,
    pub channels: usize,
    pub state: VoiceState,
    pub processes: Seq<ProcessModel>,
}

impl View for Voice {
    type V = VoiceModel;

    open spec fn view(&self) -> VoiceModel {
        VoiceModel {
            samples: self.samples@,
            sample_rate: self.sample_rate,
            channels: self.channels,
            state: self.state,
            processes: views(self.processes@),
        }
    }
}

/// The processes after the first `n` of them ran on the voice, one after the
/// other, and the voice after them.
pub open spec fn run_processes(
    procs: Seq<ProcessModel>,
    voice: VoiceState,
    own: TempoState,
    tempi: Seq<TempoState>,
    n: int,
) -> (Seq<ProcessModel>, VoiceState)
    decreases n,
{
    if n <= 0 {
        (procs, voice)
    } else {
        let (p, v) = run_processes(procs, voice, own, tempi, n - 1);
        let tempo = p[n - 1].link().spec_resolve(own, tempi);
        (p.update(n - 1, p[n - 1].spec_step(tempo)), p[n - 1].spec_voice(v, tempo))
    }
}

/// The processes, each with the tempo that it owns advanced by one sample.
pub open spec fn tick_processes(procs: Seq<ProcessModel>) -> Seq<ProcessModel> {
    Seq::new(procs.len(), |i: int| procs[i].spec_tick())
}

/// The channel of a track of `channels` channels that output channel `ch`
/// plays: a mono track plays on the first two outputs, any other track on
/// the outputs that it has channels for.
pub open spec fn spec_route(channels: usize, ch: usize) -> Option<usize> {
    if channels == 1 {
        if ch < 2 {
            Some(0usize)
        } else {
            None
        }
    } else if ch >= channels {
        None
    } else {
        Some(ch)
    }
}

/// A voice's own tempo, where it has one, advanced by one sample.
pub open spec fn tick_voice(state: VoiceState) -> VoiceState {
    match state.tempo {
        TempoLink::Own(t) => if t.mode == TempoMode::Voice || t.mode == TempoMode::TBD {
            VoiceState { tempo: TempoLink::Own(t.spec_update(1)), ..state }
        } else {
            state
        },
        _ => state,
    }
}

impl VoiceModel {
    /// The samples can be read wherever the voice's position may point:
    /// there are `end + 1` whole frames, or the voice has no frame to play.
    pub open spec fn wf(self) -> bool {
        &&& self.channels >= 1
        &&& self.state.end == 0 || (self.state.end + 1) * self.channels <= self.samples.len()
    }

    /// The frame that the position points at.
    pub open spec fn frame(self) -> int {
        self.state.position.spec_floor()
    }

    /// Whether the voice has a sample for output channel `ch`: its position
    /// is from the first frame up to, not including, the last, and the
    /// channel is routed.
    pub open spec fn sounds(self, ch: usize) -> bool {
        0 <= self.frame() < self.state.end && spec_route(self.channels, ch).is_some()
    }

    /// The sample at the position, times 65536: the sample of the frame
    /// itself at velocity one, else the line between it and the next frame's
    /// sample, taken at the position's fraction.
    pub open spec fn scaled_sample(self, ch: usize) -> int {
        let c = spec_route(self.channels, ch).unwrap();
        let s0 = self.samples[self.frame() * self.channels + c] as int;
        if self.state.velocity.raw == 65536 {
            s0 * 65536
        } else {
            let s1 = self.samples[(self.frame() + 1) * self.channels + c] as int;
            let frac = self.state.position.spec_frac();
            s0 * (65536 - frac) + s1 * frac
        }
    }

    /// What the voice adds to output channel `ch`: its sample times its gain,
    /// rounded toward zero and kept in the range of a 16-bit sample.
    pub open spec fn contribution(self, ch: usize) -> int {
        clamp_i16(
            trunc_div(self.scaled_sample(ch) * self.state.gain.raw as int, 0x1_0000_0000),
        )
    }

    /// The output sample after the voice was mixed into it.
    pub open spec fn mix(self, acc: i16, ch: usize) -> i16 {
        if self.sounds(ch) {
            clamp_i16(acc as int + self.contribution(ch)) as i16
        } else {
            acc
        }
    }

    /// The voice after one sample of one output channel: a voice that is
    /// off stays as it is; in one that is on the processes run, the tempi
    /// that the voice and its processes own advance, and on the last output
    /// channel the position moves on by the velocity.
    pub open spec fn step(self, tempi: Seq<TempoState>, ch: usize, out_channels: usize) -> VoiceModel {
        if !self.state.active {
            self
        } else {
            let own = self.state.tempo.spec_resolve(idle(), tempi);
            let (procs, state) = run_processes(
                self.processes,
                self.state,
                own,
                tempi,
                self.processes.len() as int,
            );
            let ticked = tick_voice(state);
            VoiceModel {
                state: if ch + 1 == out_channels {
                    VoiceState {
                        position: ticked.position.spec_saturating_add(ticked.velocity),
                        ..ticked
                    }
                } else {
                    ticked
                },
                processes: tick_processes(procs),
                ..self
            }
        }
    }

    /// The output sample after one sample of the voice: what the voice, once
    /// its processes ran, adds at its position.
    pub open spec fn output(self, tempi: Seq<TempoState>, acc: i16, ch: usize) -> i16 {
        if !self.state.active {
            acc
        } else {
            let own = self.state.tempo.spec_resolve(idle(), tempi);
            let (procs, state) = run_processes(
                self.processes,
                self.state,
                own,
                tempi,
                self.processes.len() as int,
            );
            (VoiceModel { state, ..self }).mix(acc, ch)
        }
    }

    /// The voice switched on from the start.
    pub open spec fn started(self) -> VoiceModel {
        let state = VoiceState { active: true, ..self.state };
        VoiceModel {
            state: VoiceState {
                position: state.spec_start_position(),
                tempo: match state.tempo {
                    TempoLink::Own(t) => if t.mode == TempoMode::Voice || t.mode == TempoMode::TBD {
                        TempoLink::Own(TempoState { active: true, current: 0, ..t })
                    } else {
                        state.tempo
                    },
                    _ => state.tempo,
                },
                ..state
            },
            processes: Seq::new(
                self.processes.len(),
                |i: int| self.processes[i].spec_reset().spec_start(),
            ),
            ..self
        }
    }

    /// The voice switched off and set back to the start.
    pub open spec fn stopped(self) -> VoiceModel {
        let state = VoiceState { active: false, ..self.state };
        VoiceModel {
            state: VoiceState {
                position: state.spec_start_position(),
                tempo: match state.tempo {
                    TempoLink::Own(t) => if t.mode == TempoMode::Voice {
                        TempoLink::Own(TempoState { active: false, current: 0, ..t })
                    } else {
                        state.tempo
                    },
                    _ => state.tempo,
                },
                ..state
            },
            processes: Seq::new(
                self.processes.len(),
                |i: int| self.processes[i].spec_reset().spec_stop(),
            ),
            ..self
        }
    }
}

/// Number of whole frames in `len` samples of `channels` channels, less one.
pub open spec fn last_frame(len: nat, channels: usize) -> usize {
    if channels == 0 || len / (channels as nat) == 0 {
        0
    } else {
        (len / (channels as nat) - 1) as usize
    }
}

/// The voice that a track gives: at rest at the start, at velocity and gain
/// one.
pub open spec fn new_voice(track: AudioModel, tempo: TempoLink) -> VoiceModel {
    VoiceModel {
        samples: track.samples,
        sample_rate: track.sample_rate,
        channels: track.num_channels as usize,
        state: VoiceState {
            active: false,
            position: Fixed { raw: 0 },
            end: last_frame(track.samples.len(), track.num_channels as usize),
            velocity: Fixed { raw: 65536 },
            gain: Fixed { raw: 65536 },
            tempo,
        },
        processes: Seq::empty(),
    }
}

/// A copy of the samples.
fn copy_samples(v: &Vec<i16>) -> (r: Vec<i16>)
    ensures
        r@ == v@,
{
    let mut r: Vec<i16> = Vec::with_capacity(v.len());
    let mut i: usize = 0;
    while i < v.len()
        invariant
            i <= v.len(),
            r@ == v@.take(i as int),
        decreases v.len() - i,
    {
        r.push(v[i]);
        i += 1;
    }
    assert(v@.take(v.len() as int) =~= v@);
    r
}

impl Voice {
    /// A voice that plays `af` with the tempo `tempo`.
    pub fn new(af: &AudioFile, tempo: TempoLink) -> (r: Voice)
        requires
            af.num_channels >= 1,
        ensures
            r@ == new_voice(af@, tempo),
            r@.wf(),
    {
        let channels = af.num_channels as usize;
        let frames = af.samples.len() / channels;
        let end = if frames == 0 { 0 } else { frames - 1 };
        proof {
            if frames > 0 {
                assert(frames * channels <= af.samples.len()) by (nonlinear_arith)
                    requires
                        frames == af.samples.len() as int / channels as int,
                        channels > 0,
                ;
            }
        }
        let r = Voice {
            samples: copy_samples(&af.samples),
            sample_rate: af.sample_rate,
            channels,
            state: VoiceState {
                active: false,
                position: Fixed { raw: 0 },
                end,
                velocity: Fixed { raw: 65536 },
                gain: Fixed { raw: 65536 },
                tempo,
            },
            processes: Vec::new(),
        };
        assert(r@.processes =~= Seq::empty());
        r
    }

    /// Switches the voice on and sets it, its processes and the tempi that
    /// they own to the start.
    pub fn start(&mut self)
        ensures
            final(self)@ == old(self)@.started(),
            old(self)@.wf() ==> final(self)@.wf(),
    {
        self.state.active = true;
        match &mut self.state.tempo {
            TempoLink::Own(t) => {
                if t.mode == TempoMode::Voice || t.mode == TempoMode::TBD {
                    t.start();
                }
            },
            _ => {},
        }
        let ghost procs = views(self.processes@);
        let mut j: usize = 0;
        while j < self.processes.len()
            invariant
                j <= self.processes.len(),
                self.processes.len() == procs.len(),
                self.samples == old(self).samples,
                self.sample_rate == old(self).sample_rate,
                self.channels == old(self).channels,
                self.state == (VoiceState {
                    position: old(self).state.position,
                    ..old(self)@.started().state
                }),
                forall|i: int| 0 <= i < j ==> (#[trigger] views(self.processes@)[i])
                    == procs[i].spec_reset().spec_start(),
                forall|i: int| j <= i < procs.len() ==> (#[trigger] views(self.processes@)[i])
                    == procs[i],
            decreases self.processes.len() - j,
        {
            let ghost before = self.processes@;
            self.processes[j].reset();
            self.processes[j].start();
            proof {
                assert forall|i: int| 0 <= i < j + 1 implies (#[trigger] views(self.processes@)[i])
                    == procs[i].spec_reset().spec_start() by {
                    if i < j {
                        assert(self.processes@[i] == before[i]);
                        assert(views(before)[i] == procs[i].spec_reset().spec_start());
                    } else {
                        assert(views(before)[i] == procs[i]);
                    }
                }
                assert forall|i: int| j + 1 <= i < procs.len() implies (#[trigger] views(
                    self.processes@,
                )[i]) == procs[i] by {
                    assert(self.processes@[i] == before[i]);
                    assert(views(before)[i] == procs[i]);
                }
            }
            j += 1;
        }
        self.state.retrigger();
        assert(views(self.processes@) =~= old(self)@.started().processes);
    }

    /// Switches the voice off where it is.
    pub fn pause(&mut self)
        ensures
            final(self)@ == (VoiceModel {
                state: VoiceState { active: false, ..old(self).state },
                ..old(self)@
            }),
    {
        self.state.active = false;
    }

    /// Switches the voice on where it is.
    pub fn resume(&mut self)
        ensures
            final(self)@ == (VoiceModel {
                state: VoiceState { active: true, ..old(self).state },
                ..old(self)@
            }),
    {
        self.state.active = true;
    }

    /// Switches the voice off and sets it, its processes and the tempi that
    /// they own back to the start.
    pub fn stop(&mut self)
        ensures
            final(self)@ == old(self)@.stopped(),
            old(self)@.wf() ==> final(self)@.wf(),
    {
        self.state.active = false;
        match &mut self.state.tempo {
            TempoLink::Own(t) => {
                if t.mode == TempoMode::Voice {
                    t.stop();
                }
            },
            _ => {},
        }
        let ghost procs = views(self.processes@);
        let mut j: usize = 0;
        while j < self.processes.len()
            invariant
                j <= self.processes.len(),
                self.processes.len() == procs.len(),
                self.samples == old(self).samples,
                self.sample_rate == old(self).sample_rate,
                self.channels == old(self).channels,
                self.state == (VoiceState {
                    position: old(self).state.position,
                    ..old(self)@.stopped().state
                }),
                forall|i: int| 0 <= i < j ==> (#[trigger] views(self.processes@)[i])
                    == procs[i].spec_reset().spec_stop(),
                forall|i: int| j <= i < procs.len() ==> (#[trigger] views(self.processes@)[i])
                    == procs[i],
            decreases self.processes.len() - j,
        {
            let ghost before = self.processes@;
            self.processes[j].reset();
            self.processes[j].stop();
            proof {
                assert forall|i: int| 0 <= i < j + 1 implies (#[trigger] views(self.processes@)[i])
                    == procs[i].spec_reset().spec_stop() by {
                    if i < j {
                        assert(self.processes@[i] == before[i]);
                        assert(views(before)[i] == procs[i].spec_reset().spec_stop());
                    } else {
                        assert(views(before)[i] == procs[i]);
                    }
                }
                assert forall|i: int| j + 1 <= i < procs.len() implies (#[trigger] views(
                    self.processes@,
                )[i]) == procs[i] by {
                    assert(self.processes@[i] == before[i]);
                    assert(views(before)[i] == procs[i]);
                }
            }
            j += 1;
        }
        self.state.retrigger();
        assert(views(self.processes@) =~= old(self)@.stopped().processes);
    }

    /// What the voice adds to output channel `ch`.
    fn sample(&self, ch: usize) -> (r: Option<i16>)
        requires
            self@.wf(),
        ensures
            r == (if self@.sounds(ch) {
                Some(self@.contribution(ch) as i16)
            } else {
                None::<i16>
            }),
    {
        let idx = self.state.position.floor();
        if idx < 0 || idx as u64 >= self.state.end as u64 {
            return None;
        }
        let c: usize = if self.channels == 1 {
            if ch < 2 {
                0
            } else {
                return None;
            }
        } else if ch >= self.channels {
            return None;
        } else {
            ch
        };
        let i: usize = idx as usize;
        let n = self.channels;
        assert((i + 2) * n <= (self.state.end + 1) * n) by (nonlinear_arith)
            requires
                i + 2 <= self.state.end + 1,
                n >= 0,
        ;
        assert((i + 1) * n == i * n + n && (i + 2) * n == i * n + n + n) by (nonlinear_arith);
        assert(i * n >= 0) by (nonlinear_arith)
            requires
                i >= 0,
                n >= 0,
        ;
        assert((i + 2) * n <= self.samples.len());
        assert(c < n);
        let s0 = self.samples[i * n + c] as i128;
        let scaled: i128 = if self.state.velocity.raw == 65536 {
            s0 * 65536
        } else {
            let frac = self.state.position.frac() as i128;
            let s1 = self.samples[(i + 1) * n + c] as i128;
            assert(-2147483648 <= s0 * (65536 - frac) <= 2147483648) by (nonlinear_arith)
                requires
                    -32768 <= s0 <= 32767,
                    0 <= frac < 65536,
            ;
            assert(-2147483648 <= s1 * frac <= 2147483648) by (nonlinear_arith)
                requires
                    -32768 <= s1 <= 32767,
                    0 <= frac < 65536,
            ;
            s0 * (65536 - frac) + s1 * frac
        };
        let gain = self.state.gain.raw as i128;
        assert(-0x1_0000_0000 * 0x8000_0000_0000_0000 <= scaled * gain <= 0x1_0000_0000
            * 0x8000_0000_0000_0000) by (nonlinear_arith)
            requires
                -0x1_0000_0000 <= scaled <= 0x1_0000_0000,
                -0x8000_0000_0000_0000 <= gain <= 0x8000_0000_0000_0000,
        ;
        let prod: i128 = scaled * gain;
        let q: i128 = if prod >= 0 {
            prod / 0x1_0000_0000
        } else {
            -((-prod) / 0x1_0000_0000)
        };
        if q > 32767 {
            Some(32767)
        } else if q < -32768 {
            Some(-32768)
        } else {
            Some(q as i16)
        }
    }

    /// Plays one sample of one output channel into `acc`.
    pub fn process(&mut self, tempi: &Vec<TempoState>, acc: &mut i16, ch: usize, out_channels: usize)
        requires
            old(self)@.wf(),
        ensures
            final(self)@ == old(self)@.step(tempi@, ch, out_channels),
            *final(acc) == old(self)@.output(tempi@, *old(acc), ch),
            final(self)@.wf(),
    {
        if !self.state.active {
            return;
        }
        let own = self.state.tempo.resolve(&TempoState::new(), tempi);
        let ghost procs0 = views(self.processes@);
        let ghost state0 = self.state;
        let mut k: usize = 0;
        while k < self.processes.len()
            invariant
                k <= self.processes.len(),
                self.processes.len() == procs0.len(),
                self.samples == old(self).samples,
                self.sample_rate == old(self).sample_rate,
                self.channels == old(self).channels,
                (views(self.processes@), self.state) == run_processes(
                    procs0,
                    state0,
                    own,
                    tempi@,
                    k as int,
                ),
            decreases self.processes.len() - k,
        {
            let ghost before = self.processes@;
            let tempo = self.processes[k].link().resolve(&own, tempi);
            self.processes[k].process(&mut self.state, &tempo);
            assert(views(self.processes@) =~= views(before).update(
                k as int,
                views(before)[k as int].spec_step(tempo),
            ));
            k += 1;
        }
        proof {
            lemma_processes_keep_frame(procs0, state0, own, tempi@, procs0.len() as int);
        }
        match self.sample(ch) {
            Some(x) => {
                let sum: i32 = *acc as i32 + x as i32;
                *acc = if sum > 32767 {
                    32767
                } else if sum < -32768 {
                    -32768
                } else {
                    sum as i16
                };
            },
            None => {},
        }
        match &mut self.state.tempo {
            TempoLink::Own(t) => {
                if t.mode == TempoMode::Voice || t.mode == TempoMode::TBD {
                    t.update(1);
                }
            },
            _ => {},
        }
        let ghost procs1 = views(self.processes@);
        let mut j: usize = 0;
        while j < self.processes.len()
            invariant
                j <= self.processes.len(),
                self.processes.len() == procs1.len(),
                self.samples == old(self).samples,
                self.sample_rate == old(self).sample_rate,
                self.channels == old(self).channels,
                self.state == tick_voice(run_processes(procs0, state0, own, tempi@, procs0.len() as int).1),
                forall|i: int| 0 <= i < j ==> (#[trigger] views(self.processes@)[i])
                    == procs1[i].spec_tick(),
                forall|i: int| j <= i < procs1.len() ==> (#[trigger] views(self.processes@)[i])
                    == procs1[i],
            decreases self.processes.len() - j,
        {
            let ghost before = self.processes@;
            self.processes[j].tick();
            proof {
                assert forall|i: int| 0 <= i < j + 1 implies (#[trigger] views(self.processes@)[i])
                    == procs1[i].spec_tick() by {
                    if i < j {
                        assert(self.processes@[i] == before[i]);
                        assert(views(before)[i] == procs1[i].spec_tick());
                    } else {
                        assert(views(before)[i] == procs1[i]);
                    }
                }
                assert forall|i: int| j + 1 <= i < procs1.len() implies (#[trigger] views(
                    self.processes@,
                )[i]) == procs1[i] by {
                    assert(self.processes@[i] == before[i]);
                    assert(views(before)[i] == procs1[i]);
                }
            }
            j += 1;
        }
        assert(views(self.processes@) =~= tick_processes(procs1));
        if out_channels > 0 && ch == out_channels - 1 {
            self.state.position = self.state.position.saturating_add(self.state.velocity);
        }
    }
}

/// The voices after one sample of one output channel. No voice changes what
/// another voice follows, so each steps by itself.
pub open spec fn step_voices(
    voices: Seq<VoiceModel>,
    tempi: Seq<TempoState>,
    ch: usize,
    out_channels: usize,
) -> Seq<VoiceModel> {
    Seq::new(voices.len(), |i: int| voices[i].step(tempi, ch, out_channels))
}

/// The output sample after the first `n` voices were mixed into it, one
/// after the other.
pub open spec fn mix_voices(
    voices: Seq<VoiceModel>,
    tempi: Seq<TempoState>,
    acc: i16,
    ch: usize,
    n: int,
) -> i16
    decreases n,
{
    if n <= 0 {
        acc
    } else {
        voices[n - 1].output(tempi, mix_voices(voices, tempi, acc, ch, n - 1), ch)
    }
}

/// Every voice of the list is well formed.
pub open spec fn all_wf(voices: Seq<VoiceModel>) -> bool {
    forall|i: int| 0 <= i < voices.len() ==> (#[trigger] voices[i]).wf()
}

/// Plays one sample of one output channel of each voice into `acc`.
pub fn process_voices(
    voices: &mut Vec<Voice>,
    tempi: &Vec<TempoState>,
    acc: &mut i16,
    ch: usize,
    out_channels: usize,
)
    requires
        all_wf(views(old(voices)@)),
    ensures
        views(final(voices)@) == step_voices(views(old(voices)@), tempi@, ch, out_channels),
        *final(acc) == mix_voices(
            views(old(voices)@),
            tempi@,
            *old(acc),
            ch,
            old(voices)@.len() as int,
        ),
        all_wf(views(final(voices)@)),
{
    let ghost orig = views(voices@);
    let mut i: usize = 0;
    while i < voices.len()
        invariant
            i <= voices.len(),
            voices.len() == orig.len(),
            orig == views(old(voices)@),
            all_wf(orig),
            *acc == mix_voices(orig, tempi@, *old(acc), ch, i as int),
            forall|j: int| 0 <= j < i ==> (#[trigger] views(voices@)[j]) == orig[j].step(
                tempi@,
                ch,
                out_channels,
            ) && views(voices@)[j].wf(),
            forall|j: int| i <= j < orig.len() ==> (#[trigger] views(voices@)[j]) == orig[j],
        decreases voices.len() - i,
    {
        let ghost before = voices@;
        assert(views(before)[i as int] == orig[i as int]);
        assert(orig[i as int].wf());
        voices[i].process(tempi, acc, ch, out_channels);
        proof {
            assert forall|j: int| 0 <= j < i + 1 implies (#[trigger] views(voices@)[j])
                == orig[j].step(tempi@, ch, out_channels) && views(voices@)[j].wf() by {
                if j < i {
                    assert(voices@[j] == before[j]);
                    assert(views(before)[j] == orig[j].step(tempi@, ch, out_channels));
                }
            }
            assert forall|j: int| i + 1 <= j < orig.len() implies (#[trigger] views(voices@)[j])
                == orig[j] by {
                assert(voices@[j] == before[j]);
                assert(views(before)[j] == orig[j]);
            }
        }
        i += 1;
    }
    assert(views(voices@) =~= step_voices(orig, tempi@, ch, out_channels));
}

/// What a group has of its own: whether it plays, its gain, and the place
/// of its tempo in the engine's table.
#[derive(Debug, Clone, Copy, PartialEq)]
pub struct GroupState {
    pub active: bool,
    pub gain: Fixed,
    pub tempo: usize,
}

/// Voices that play together and can follow one tempo.
#[derive(Debug, Clone, PartialEq)]
pub struct Group {
    pub state: GroupState,
    pub voices: Vec<Voice>,
    pub processes: Vec<Process>,
}

/// A group as a value.
pub struct GroupModel {
    pub state: GroupState,
    pub voices: Seq<VoiceModel>,
    pub processes: Seq<ProcessModel>,
}

impl View for Group {
    type V = GroupModel;

    open spec fn view(&self) -> GroupModel {
        GroupModel {
            state: self.state,
            voices: views(self.voices@),
            processes: views(self.processes@),
        }
    }
}

/// The table with the tempo at `place` changed by `f`, where the place is in
/// the table and the tempo there belongs to a group.
pub open spec fn group_tempo(
    tempi: Seq<TempoState>,
    place: usize,
    f: spec_fn(TempoState) -> TempoState,
) -> Seq<TempoState> {
    if place < tempi.len() && tempi[place as int].mode == TempoMode::Group {
        tempi.update(place as int, f(tempi[place as int]))
    } else {
        tempi
    }
}

impl GroupModel {
    pub open spec fn wf(self) -> bool {
        all_wf(self.voices)
    }

    /// The group after one sample of one output channel: its voices step
    /// where the group plays.
    pub open spec fn step(self, tempi: Seq<TempoState>, ch: usize, out_channels: usize) -> GroupModel {
        if self.state.active {
            GroupModel { voices: step_voices(self.voices, tempi, ch, out_channels), ..self }
        } else {
            self
        }
    }

    /// The output sample after the group's voices were mixed into it.
    pub open spec fn output(self, tempi: Seq<TempoState>, acc: i16, ch: usize) -> i16 {
        if self.state.active {
            mix_voices(self.voices, tempi, acc, ch, self.voices.len() as int)
        } else {
            acc
        }
    }

    /// The table after one sample of the group: a group that plays advances
    /// the tempo that it owns.
    pub open spec fn tick(self, tempi: Seq<TempoState>) -> Seq<TempoState> {
        if self.state.active {
            group_tempo(tempi, self.state.tempo, |t: TempoState| t.spec_update(1))
        } else {
            tempi
        }
    }

    /// The group switched on, with all its voices started.
    pub open spec fn started(self) -> GroupModel {
        GroupModel {
            state: GroupState { active: true, ..self.state },
            voices: Seq::new(self.voices.len(), |i: int| self.voices[i].started()),
            ..self
        }
    }

    /// The group switched off, with all its voices off where they are.
    pub open spec fn stopped(self) -> GroupModel {
        GroupModel {
            state: GroupState { active: false, ..self.state },
            voices: Seq::new(
                self.voices.len(),
                |i: int|
                    VoiceModel {
                        state: VoiceState { active: false, ..self.voices[i].state },
                        ..self.voices[i]
                    },
            ),
            ..self
        }
    }
}

impl Group {
    /// A group of `voices` whose tempo stands at `tempo` in the table.
    pub fn new(voices: Vec<Voice>, tempo: usize) -> (r: Group)
        ensures
            r@ == (GroupModel {
                state: GroupState { active: false, gain: Fixed { raw: 65536 }, tempo },
                voices: views(voices@),
                processes: Seq::empty(),
            }),
    {
        let r = Group {
            state: GroupState { active: false, gain: Fixed { raw: 65536 }, tempo },
            voices,
            processes: Vec::new(),
        };
        assert(r@.processes =~= Seq::empty());
        r
    }

    /// Switches the group on, runs the tempo that it owns from zero and
    /// starts its voices.
    pub fn start(&mut self, tempi: &mut Vec<TempoState>)
        ensures
            final(self)@ == old(self)@.started(),
            final(tempi)@ == group_tempo(
                old(tempi)@,
                old(self).state.tempo,
                |t: TempoState| TempoState { active: true, current: 0, ..t },
            ),
            old(self)@.wf() ==> final(self)@.wf(),
    {
        self.state.active = true;
        let place = self.state.tempo;
        if place < tempi.len() && tempi[place].mode == TempoMode::Group {
            tempi[place].start();
        }
        let ghost orig = views(self.voices@);
        let mut i: usize = 0;
        while i < self.voices.len()
            invariant
                i <= self.voices.len(),
                self.voices.len() == orig.len(),
                self.state == (GroupState { active: true, ..old(self).state }),
                self.processes == old(self).processes,
                orig == old(self)@.voices,
                forall|j: int| 0 <= j < i ==> (#[trigger] views(self.voices@)[j])
                    == orig[j].started(),
                forall|j: int| i <= j < orig.len() ==> (#[trigger] views(self.voices@)[j])
                    == orig[j],
            decreases self.voices.len() - i,
        {
            let ghost before = self.voices@;
            self.voices[i].start();
            proof {
                assert forall|j: int| 0 <= j < i + 1 implies (#[trigger] views(self.voices@)[j])
                    == orig[j].started() by {
                    if j < i {
                        assert(self.voices@[j] == before[j]);
                        assert(views(before)[j] == orig[j].started());
                    } else {
                        assert(views(before)[j] == orig[j]);
                    }
                }
                assert forall|j: int| i + 1 <= j < orig.len() implies (#[trigger] views(
                    self.voices@,
                )[j]) == orig[j] by {
                    assert(self.voices@[j] == before[j]);
                    assert(views(before)[j] == orig[j]);
                }
            }
            i += 1;
        }
        assert(views(self.voices@) =~= old(self)@.started().voices);
        proof {
            if old(self)@.wf() {
                assert forall|j: int| 0 <= j < orig.len() implies (#[trigger] views(
                    self.voices@,
                )[j]).wf() by {
                    assert(orig[j].wf());
                }
            }
        }
    }

    /// Switches the group off where it is.
    pub fn pause(&mut self)
        ensures
            final(self)@ == (GroupModel {
                state: GroupState { active: false, ..old(self).state },
                ..old(self)@
            }),
    {
        self.state.active = false;
    }

    /// Switches the group on where it is.
    pub fn resume(&mut self)
        ensures
            final(self)@ == (GroupModel {
                state: GroupState { active: true, ..old(self).state },
                ..old(self)@
            }),
    {
        self.state.active = true;
    }

    /// Switches the group and its voices off and halts the tempo that it
    /// owns at zero.
    pub fn stop(&mut self, tempi: &mut Vec<TempoState>)
        ensures
            final(self)@ == old(self)@.stopped(),
            final(tempi)@ == group_tempo(
                old(tempi)@,
                old(self).state.tempo,
                |t: TempoState| TempoState { active: false, current: 0, ..t },
            ),
            old(self)@.wf() ==> final(self)@.wf(),
    {
        self.state.active = false;
        let ghost orig = views(self.voices@);
        let mut i: usize = 0;
        while i < self.voices.len()
            invariant
                i <= self.voices.len(),
                self.voices.len() == orig.len(),
                self.state == (GroupState { active: false, ..old(self).state }),
                self.processes == old(self).processes,
                orig == old(self)@.voices,
                forall|j: int| 0 <= j < i ==> (#[trigger] views(self.voices@)[j])
                    == old(self)@.stopped().voices[j],
                forall|j: int| i <= j < orig.len() ==> (#[trigger] views(self.voices@)[j])
                    == orig[j],
            decreases self.voices.len() - i,
        {
            let ghost before = self.voices@;
            self.voices[i].state.active = false;
            proof {
                assert forall|j: int| 0 <= j < i + 1 implies (#[trigger] views(self.voices@)[j])
                    == old(self)@.stopped().voices[j] by {
                    if j < i {
                        assert(self.voices@[j] == before[j]);
                        assert(views(before)[j] == old(self)@.stopped().voices[j]);
                    } else {
                        assert(views(before)[j] == orig[j]);
                    }
                }
                assert forall|j: int| i + 1 <= j < orig.len() implies (#[trigger] views(
                    self.voices@,
                )[j]) == orig[j] by {
                    assert(self.voices@[j] == before[j]);
                    assert(views(before)[j] == orig[j]);
                }
            }
            i += 1;
        }
        assert(views(self.voices@) =~= old(self)@.stopped().voices);
        let place = self.state.tempo;
        if place < tempi.len() && tempi[place].mode == TempoMode::Group {
            tempi[place].stop();
        }
        proof {
            if old(self)@.wf() {
                assert forall|j: int| 0 <= j < orig.len() implies (#[trigger] views(
                    self.voices@,
                )[j]).wf() by {
                    assert(orig[j].wf());
                }
            }
        }
    }

    /// Plays one sample of one output channel of the group into `acc`.
    pub fn process(
        &mut self,
        tempi: &mut Vec<TempoState>,
        acc: &mut i16,
        ch: usize,
        out_channels: usize,
    )
        requires
            old(self)@.wf(),
        ensures
            final(self)@ == old(self)@.step(old(tempi)@, ch, out_channels),
            *final(acc) == old(self)@.output(old(tempi)@, *old(acc), ch),
            final(tempi)@ == old(self)@.tick(old(tempi)@),
            final(self)@.wf(),
    {
        if !self.state.active {
            return;
        }
        process_voices(&mut self.voices, tempi, acc, ch, out_channels);
        let place = self.state.tempo;
        if place < tempi.len() && tempi[place].mode == TempoMode::Group {
            tempi[place].update(1);
        }
    }
}

/// Processes change where a voice is, never what it plays: its end stays.
pub proof fn lemma_processes_keep_frame(
    procs: Seq<ProcessModel>,
    voice: VoiceState,
    own: TempoState,
    tempi: Seq<TempoState>,
    n: int,
)
    requires
        0 <= n <= procs.len(),
    ensures
        run_processes(procs, voice, own, tempi, n).1.end == voice.end,
        run_processes(procs, voice, own, tempi, n).1.velocity == voice.velocity,
        run_processes(procs, voice, own, tempi, n).1.gain == voice.gain,
        run_processes(procs, voice, own, tempi, n).1.active == voice.active,
        run_processes(procs, voice, own, tempi, n).1.tempo == voice.tempo,
        run_processes(procs, voice, own, tempi, n).0.len() == procs.len(),
    decreases n,
{
    if n > 0 {
        lemma_processes_keep_frame(procs, voice, own, tempi, n - 1);
    }
}

/// Where in a channel's memory area the sample of a frame stands, in bytes
/// from the area's start: the area's first bit plus the frame's number
/// times the step in bits from frame to frame, in whole bytes.
pub open spec fn spec_byte_offset(first: u32, step: u32, offset: u64, frame: u64) -> int {
    (first + (offset + frame) * step) / 8
}

/// The place in bytes of the sample of frame `offset + frame` in a channel
/// area that starts at bit `first` and steps by `step` bits; `None` where
/// the place is no `u64`.
pub fn byte_offset(first: u32, step: u32, offset: u64, frame: u64) -> (r: Option<u64>)
    ensures
        r == (if spec_byte_offset(first, step, offset, frame) <= u64::MAX {
            Some(spec_byte_offset(first, step, offset, frame) as u64)
        } else {
            None
        }),
{
    let at: u128 = offset as u128 + frame as u128;
    assert(at * step <= 0x1_ffff_ffff_ffff_fffe * 0xffff_ffff) by (nonlinear_arith)
        requires
            0 <= at <= 0x1_ffff_ffff_ffff_fffe,
            0 <= step <= 0xffff_ffff,
    ;
    let bits: u128 = first as u128 + at * (step as u128);
    let bytes: u128 = bits / 8;
    if bytes > u64::MAX as u128 {
        None
    } else {
        Some(bytes as u64)
    }
}

/// The audio engine.
#[derive(Debug, Clone, PartialEq)]
pub struct Conductor {
    pub voices: Vec<Voice>,
    pub groups: Vec<Group>,
    /// The place in `tempi` of each tempo context.
    pub tempo_cons: Vec<usize>,
    /// The tempi of groups and tempo contexts.
    pub tempi: Vec<TempoState>,
    pub out_channels: usize,
    pub tracks: Vec<AudioFile>,
    pub sample_rate: SampleRate,
    pub clock: Clock,
    /// Whether the engine was told to end.
    pub quit: bool,
}

/// The engine as a value.
pub struct ConductorModel {
    pub voices: Seq<VoiceModel>,
    pub groups: Seq<GroupModel>,
    pub tempo_cons: Seq<usize>,
    pub tempi: Seq<TempoState>,
    pub out_channels: usize,
    pub tracks: Seq<AudioModel>,
    pub sample_rate: u32,
    pub clock: u64,
    pub quit: bool,
}

impl View for Conductor {
    type V = ConductorModel;

    open spec fn view(&self) -> ConductorModel {
        ConductorModel {
            voices: views(self.voices@),
            groups: views(self.groups@),
            tempo_cons: self.tempo_cons@,
            tempi: self.tempi@,
            out_channels: self.out_channels,
            tracks: views(self.tracks@),
            sample_rate: self.sample_rate.hz,
            clock: self.clock.samples,
            quit: self.quit,
        }
    }
}

/// Every group of the list is well formed.
pub open spec fn groups_wf(groups: Seq<GroupModel>) -> bool {
    forall|g: int| 0 <= g < groups.len() ==> (#[trigger] groups[g]).wf()
}

/// The groups and the table after the first `n` groups played one sample of
/// one output channel, one after the other, and the output sample after
/// them. A group sees the tempi as the groups before it left them.
pub open spec fn run_groups(
    groups: Seq<GroupModel>,
    tempi: Seq<TempoState>,
    acc: i16,
    ch: usize,
    out_channels: usize,
    n: int,
) -> (Seq<GroupModel>, Seq<TempoState>, i16)
    decreases n,
{
    if n <= 0 {
        (groups, tempi, acc)
    } else {
        let (g, t, a) = run_groups(groups, tempi, acc, ch, out_channels, n - 1);
        (
            g.update(n - 1, g[n - 1].step(t, ch, out_channels)),
            g[n - 1].tick(t),
            g[n - 1].output(t, a, ch),
        )
    }
}

impl ConductorModel {
    pub open spec fn wf(self) -> bool {
        all_wf(self.voices) && groups_wf(self.groups)
    }

    /// The engine after one sample of output channel `ch`, and that sample:
    /// silence with the voices of the top level and then the groups mixed
    /// into it.
    pub open spec fn sample(self, ch: usize) -> (ConductorModel, i16) {
        let a = mix_voices(self.voices, self.tempi, 0, ch, self.voices.len() as int);
        let (g, t, b) = run_groups(
            self.groups,
            self.tempi,
            a,
            ch,
            self.out_channels,
            self.groups.len() as int,
        );
        (
            ConductorModel {
                voices: step_voices(self.voices, self.tempi, ch, self.out_channels),
                groups: g,
                tempi: t,
                ..self
            },
            b,
        )
    }

    /// The engine after the first `n` output channels of one frame, and
    /// their samples.
    pub open spec fn channels(self, n: int) -> (ConductorModel, Seq<i16>)
        decreases n,
    {
        if n <= 0 {
            (self, Seq::empty())
        } else {
            let (c, out) = self.channels(n - 1);
            let (d, s) = c.sample((n - 1) as usize);
            (d, out.push(s))
        }
    }

    /// The engine after `frames` frames, and their samples, interleaved. The
    /// clock counts the frames.
    pub open spec fn play(self, frames: int) -> (ConductorModel, Seq<i16>)
        decreases frames,
    {
        if frames <= 0 {
            (self, Seq::empty())
        } else {
            let (c, out) = self.play(frames - 1);
            let (d, frame) = c.channels(c.out_channels as int);
            (ConductorModel { clock: d.clock.wrapping_add(1), ..d }, out + frame)
        }
    }
}

/// Groups that played keep their number, the table keeps its length, and the
/// groups that have not played yet are as they were.
pub proof fn lemma_run_groups_shape(
    groups: Seq<GroupModel>,
    tempi: Seq<TempoState>,
    acc: i16,
    ch: usize,
    out_channels: usize,
    n: int,
)
    requires
        0 <= n <= groups.len(),
    ensures
        run_groups(groups, tempi, acc, ch, out_channels, n).0.len() == groups.len(),
        run_groups(groups, tempi, acc, ch, out_channels, n).1.len() == tempi.len(),
        forall|j: int|
            n <= j < groups.len() ==> run_groups(groups, tempi, acc, ch, out_channels, n).0[j]
                == groups[j],
    decreases n,
{
    if n > 0 {
        lemma_run_groups_shape(groups, tempi, acc, ch, out_channels, n - 1);
    }
}

/// A frame has as many samples as there are output channels, and playing
/// changes neither their number nor the lists' lengths.
pub proof fn lemma_channels_shape(c: ConductorModel, n: int)
    requires
        0 <= n,
    ensures
        c.channels(n).1.len() == n,
        c.channels(n).0.out_channels == c.out_channels,
        c.channels(n).0.clock == c.clock,
    decreases n,
{
    if n > 0 {
        lemma_channels_shape(c, n - 1);
    }
}

/// Playing gives one sample for every frame and output channel.
pub proof fn lemma_play_shape(c: ConductorModel, frames: int)
    requires
        0 <= frames,
    ensures
        c.play(frames).1.len() == frames * c.out_channels,
        c.play(frames).0.out_channels == c.out_channels,
    decreases frames,
{
    if frames > 0 {
        lemma_play_shape(c, frames - 1);
        let d = c.play(frames - 1).0;
        lemma_channels_shape(d, d.out_channels as int);
        assert((frames - 1) * c.out_channels + c.out_channels == frames * c.out_channels)
            by (nonlinear_arith);
    } else {
        assert(frames * c.out_channels == 0) by (nonlinear_arith)
            requires
                frames == 0,
        ;
    }
}

/// Whether the voice's samples can be read wherever its position may point.
fn voice_intact(v: &Voice) -> (r: bool)
    ensures
        r == v@.wf(),
{
    if v.channels < 1 {
        return false;
    }
    if v.state.end == 0 {
        return true;
    }
    let frames: u128 = v.state.end as u128 + 1;
    assert(frames * v.channels <= 0x1_0000_0000_0000_0000 * 0xffff_ffff_ffff_ffff)
        by (nonlinear_arith)
        requires
            0 <= frames <= 0x1_0000_0000_0000_0000,
            0 <= v.channels <= 0xffff_ffff_ffff_ffff,
    ;
    frames * (v.channels as u128) <= v.samples.len() as u128
}

/// Whether every voice of the list is intact.
fn voices_intact(voices: &Vec<Voice>) -> (r: bool)
    ensures
        r == all_wf(views(voices@)),
{
    let mut i: usize = 0;
    while i < voices.len()
        invariant
            i <= voices.len(),
            forall|j: int| 0 <= j < i ==> (#[trigger] views(voices@)[j]).wf(),
        decreases voices.len() - i,
    {
        if !voice_intact(&voices[i]) {
            assert(!views(voices@)[i as int].wf());
            return false;
        }
        i += 1;
    }
    true
}

impl Conductor {
    /// Whether the engine is in the state that its functions keep it in:
    /// each voice has a channel and as many samples as its end says.
    pub fn intact(&self) -> (r: bool)
        ensures
            r == self@.wf(),
    {
        if !voices_intact(&self.voices) {
            return false;
        }
        let mut g: usize = 0;
        while g < self.groups.len()
            invariant
                g <= self.groups.len(),
                forall|j: int| 0 <= j < g ==> (#[trigger] self@.groups[j]).wf(),
            decreases self.groups.len() - g,
        {
            if !voices_intact(&self.groups[g].voices) {
                assert(!self@.groups[g as int].wf());
                return false;
            }
            g += 1;
        }
        true
    }

    /// An engine that has these tracks and plays nothing yet.
    pub fn prepare(out_channels: usize, tracks: Vec<AudioFile>, sample_rate: u32) -> (r: Conductor)
        ensures
            r@ == (ConductorModel {
                voices: Seq::empty(),
                groups: Seq::empty(),
                tempo_cons: Seq::empty(),
                tempi: Seq::empty(),
                out_channels,
                tracks: views(tracks@),
                sample_rate,
                clock: 0,
                quit: false,
            }),
            r@.wf(),
    {
        let mut rate = SampleRate::new();
        crate::audio_processing::blast_time::sample_rate::set(&mut rate, sample_rate);
        let r = Conductor {
            voices: Vec::new(),
            groups: Vec::new(),
            tempo_cons: Vec::new(),
            tempi: Vec::new(),
            out_channels,
            tracks,
            sample_rate: rate,
            clock: Clock::new(),
            quit: false,
        };
        assert(r@.voices =~= Seq::empty());
        assert(r@.groups =~= Seq::empty());
        r
    }

    /// Plays one sample of one output channel of every group into `acc`.
    fn process_groups(&mut self, acc: &mut i16, ch: usize)
        requires
            old(self)@.wf(),
        ensures
            (final(self)@.groups, final(self)@.tempi, *final(acc)) == run_groups(
                old(self)@.groups,
                old(self)@.tempi,
                *old(acc),
                ch,
                old(self)@.out_channels,
                old(self)@.groups.len() as int,
            ),
            final(self)@ == (ConductorModel {
                groups: final(self)@.groups,
                tempi: final(self)@.tempi,
                ..old(self)@
            }),
            final(self)@.wf(),
    {
        let ghost orig = self@;
        let mut g: usize = 0;
        while g < self.groups.len()
            invariant
                g <= self.groups.len(),
                self.groups.len() == orig.groups.len(),
                orig == old(self)@,
                orig.wf(),
                self@ == (ConductorModel { groups: self@.groups, tempi: self@.tempi, ..orig }),
                (self@.groups, self@.tempi, *acc) == run_groups(
                    orig.groups,
                    orig.tempi,
                    *old(acc),
                    ch,
                    orig.out_channels,
                    g as int,
                ),
                forall|j: int| 0 <= j < g ==> (#[trigger] self@.groups[j]).wf(),
            decreases self.groups.len() - g,
        {
            let ghost before = self.groups@;
            let ghost table = self.tempi@;
            proof {
                lemma_run_groups_shape(
                    orig.groups,
                    orig.tempi,
                    *old(acc),
                    ch,
                    orig.out_channels,
                    g as int,
                );
                assert(views(before)[g as int] == orig.groups[g as int]);
                assert(orig.groups[g as int].wf());
            }
            let out_channels = self.out_channels;
            self.groups[g].process(&mut self.tempi, acc, ch, out_channels);
            proof {
                assert(views(self.groups@) =~= views(before).update(
                    g as int,
                    views(before)[g as int].step(table, ch, out_channels),
                ));
                assert forall|j: int| 0 <= j < g + 1 implies (#[trigger] self@.groups[j]).wf() by {
                    if j < g {
                        assert(self.groups@[j] == before[j]);
                        assert(views(before)[j].wf());
                    }
                }
            }
            g += 1;
        }
    }

    /// Plays one sample of output channel `ch`.
    fn process_sample(&mut self, ch: usize) -> (r: i16)
        requires
            old(self)@.wf(),
        ensures
            (final(self)@, r) == old(self)@.sample(ch),
            final(self)@.wf(),
    {
        let mut acc: i16 = 0;
        process_voices(&mut self.voices, &self.tempi, &mut acc, ch, self.out_channels);
        self.process_groups(&mut acc, ch);
        acc
    }

    /// Plays `frames` frames into the front of `out`, interleaved: the
    /// sample of frame `f` and channel `ch` stands at `f * out_channels +
    /// ch`.
    pub fn coordinate(&mut self, out: &mut Vec<i16>, frames: usize)
        requires
            old(self)@.wf(),
            frames * old(self)@.out_channels <= old(out)@.len(),
        ensures
            final(self)@ == old(self)@.play(frames as int).0,
            final(out)@ == old(self)@.play(frames as int).1 + old(out)@.skip(
                frames * old(self)@.out_channels,
            ),
            final(self)@.wf(),
    {
        let ghost orig = self@;
        let n = self.out_channels;
        let mut f: usize = 0;
        assert(out@ =~= orig.play(0).1 + out@.skip(0));
        while f < frames
            invariant
                f <= frames,
                n == orig.out_channels,
                orig == old(self)@,
                out.len() == old(out).len(),
                frames * n <= out.len(),
                self@ == orig.play(f as int).0,
                self@.out_channels == n,
                self@.wf(),
                out@ == orig.play(f as int).1 + old(out)@.skip(f * n),
            decreases frames - f,
        {
            let ghost start = self@;
            let ghost done = orig.play(f as int).1;
            proof {
                lemma_play_shape(orig, f as int);
                assert((f + 1) * n <= frames * n) by (nonlinear_arith)
                    requires
                        f + 1 <= frames,
                        n >= 0,
                ;
                assert((f + 1) * n == f * n + n) by (nonlinear_arith);
                assert(f * n >= 0) by (nonlinear_arith)
                    requires
                        f >= 0,
                        n >= 0,
                ;
            }
            let base: usize = f * n;
            let mut ch: usize = 0;
            assert(out@ =~= done + start.channels(0).1 + old(out)@.skip(base + 0));
            while ch < n
                invariant
                    ch <= n,
                    n == orig.out_channels,
                    base == f * n,
                    base + n <= out.len(),
                    out.len() == old(out).len(),
                    done.len() == base,
                    self@ == start.channels(ch as int).0,
                    self@.out_channels == n,
                    self@.wf(),
                    out@ == done + start.channels(ch as int).1 + old(out)@.skip(base + ch),
                decreases n - ch,
            {
                let ghost before = out@;
                proof {
                    lemma_channels_shape(start, ch as int);
                }
                let s = self.process_sample(ch);
                out[base + ch] = s;
                assert(out@ =~= done + start.channels(ch + 1).1 + old(out)@.skip(base + ch + 1));
                ch += 1;
            }
            crate::audio_processing::blast_time::clock::advance(&mut self.clock, 1);
            proof {
                assert(out@ =~= orig.play(f + 1).1 + old(out)@.skip((f + 1) * n));
            }
            f += 1;
        }
    }
}

} // verus!
