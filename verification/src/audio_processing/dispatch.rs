//! How the engine runs a command.
//!
//! Each command is a change of the engine's lists. [`ConductorModel::apply`]
//! says which, over values; [`Conductor::apply`] makes it.

use vstd::prelude::*;
use crate::audio_processing::blast_time::{TempoMode, TempoState, spec_convert_interval};
use crate::audio_processing::commands::{
    Command,
    CommandView,
    GroupArgs,
    Idx,
    LoadArgs,
    MoveView,
    PauseArgs,
    ResumeArgs,
    SeqArgs,
    StartArgs,
    StopArgs,
    TcArgs,
    TempoRepr,
    UnloadArgs,
    VelocityArgs,
    moves_of,
};
use crate::audio_processing::engine::{
    Conductor,
    ConductorModel,
    Group,
    GroupModel,
    GroupState,
    Voice,
    VoiceModel,
    all_wf,
    group_tempo,
    new_voice,
};
use crate::audio_processing::fixed::Fixed;
use crate::audio_processing::lists::{
    descending,
    descending_in,
    distinct,
    distinct_in,
    extract,
    lemma_all_places,
    lemma_views_without,
    lemma_without_members,
    picked,
    views,
    without,
};
use crate::audio_processing::processes::{
    Process,
    ProcessModel,
    SeqModel,
    SeqState,
    Sequencer,
    TempoLink,
    VoiceState,
    idle,
};

verus! {

/// What `start`, `pause`, `resume` and `stop` do to what they address.
#[derive(Clone, Copy, Debug, PartialEq, Eq, Structural)]
pub enum Toggle {
    Start,
    Pause,
    Resume,
    Stop,
}

/// The tempo that a description asks the engine to make, at `rate` samples
/// per second: of the description's mode and unit, and with its interval in
/// samples. A description without a positive interval gives a tempo without
/// a period.
pub open spec fn fresh(t: TempoRepr, rate: u32) -> TempoState {
    TempoState {
        mode: t.mode,
        unit: t.unit,
        interval: if t.interval.raw > 0 {
            spec_convert_interval(t.unit, t.interval, rate)
        } else {
            Fixed { raw: 0 }
        },
        active: false,
        current: 0,
    }
}

/// Makes the tempo that a description asks for.
pub fn make_tempo(tr: &TempoRepr, rate: u32) -> (t: TempoState)
    ensures
        t == fresh(*tr, rate),
{
    let mut t = TempoState::new();
    if tr.interval.raw > 0 {
        t.init(tr.mode, tr.unit, tr.interval, rate);
    } else {
        t.mode = tr.mode;
        t.unit = tr.unit;
    }
    t
}

/// A tempo under `op`.
pub open spec fn toggled_tempo(t: TempoState, op: Toggle) -> TempoState {
    match op {
        Toggle::Start => TempoState { active: true, current: 0, ..t },
        Toggle::Pause => TempoState { active: false, ..t },
        Toggle::Resume => TempoState { active: true, ..t },
        Toggle::Stop => TempoState { active: false, current: 0, ..t },
    }
}

/// A voice under `op`.
pub open spec fn toggled_voice(v: VoiceModel, op: Toggle) -> VoiceModel {
    match op {
        Toggle::Start => v.started(),
        Toggle::Pause => VoiceModel { state: VoiceState { active: false, ..v.state }, ..v },
        Toggle::Resume => VoiceModel { state: VoiceState { active: true, ..v.state }, ..v },
        Toggle::Stop => v.stopped(),
    }
}

/// A group under `op`.
pub open spec fn toggled_group(g: GroupModel, op: Toggle) -> GroupModel {
    match op {
        Toggle::Start => g.started(),
        Toggle::Pause => GroupModel { state: GroupState { active: false, ..g.state }, ..g },
        Toggle::Resume => GroupModel { state: GroupState { active: true, ..g.state }, ..g },
        Toggle::Stop => g.stopped(),
    }
}

/// The table after a group whose tempo stands at `place` went through `op`:
/// starting and stopping a group start and stop the tempo that it owns.
pub open spec fn toggled_table(tempi: Seq<TempoState>, place: usize, op: Toggle) -> Seq<TempoState> {
    match op {
        Toggle::Start => group_tempo(tempi, place, |t: TempoState| toggled_tempo(t, Toggle::Start)),
        Toggle::Stop => group_tempo(tempi, place, |t: TempoState| toggled_tempo(t, Toggle::Stop)),
        _ => tempi,
    }
}

/// The processes with those at the first `n` of `places` following `link`.
pub open spec fn rebind(procs: Seq<ProcessModel>, places: Seq<usize>, link: TempoLink, n: int) -> Seq<
    ProcessModel,
>
    decreases n,
{
    if n <= 0 {
        procs
    } else {
        let p = rebind(procs, places, link, n - 1);
        if places[n - 1] < p.len() {
            p.update(places[n - 1] as int, p[places[n - 1] as int].with_link(link))
        } else {
            p
        }
    }
}

/// A voice as it enters a group whose tempo stands at `place`.
pub open spec fn adopted(v: VoiceModel, mv: MoveView, place: usize) -> VoiceModel {
    if mv.inherit {
        VoiceModel {
            state: VoiceState { tempo: TempoLink::Shared(place), ..v.state },
            processes: rebind(
                v.processes,
                mv.procs,
                TempoLink::Shared(place),
                mv.procs.len() as int,
            ),
            ..v
        }
    } else {
        v
    }
}

/// The places at the top level of the voices that move.
pub open spec fn move_ids(moves: Seq<MoveView>) -> Seq<usize> {
    Seq::new(moves.len(), |k: int| moves[k].voice)
}

impl ConductorModel {
    /// Whether `idx` addresses something that the engine has.
    pub open spec fn has(self, idx: Idx) -> bool {
        match idx {
            Idx::Voice(v) => v < self.voices.len(),
            Idx::Member(g, v) => g < self.groups.len() && v < self.groups[g as int].voices.len(),
            Idx::Group(g) => g < self.groups.len(),
            Idx::Tempo(t) => t < self.tempo_cons.len(),
            Idx::Process(_) => true,
        }
    }

    /// Whether the engine has what the description refers to.
    pub open spec fn resolvable(self, t: TempoRepr) -> bool {
        t.owned || match t.mode {
            TempoMode::Group => t.idx < self.groups.len(),
            TempoMode::Context => t.idx < self.tempo_cons.len(),
            _ => true,
        }
    }

    /// The place in the table of the tempo that a description refers to:
    /// that of the group or of the tempo context at its `idx`.
    pub open spec fn referred(self, t: TempoRepr) -> Option<usize> {
        if t.owned {
            None
        } else {
            match t.mode {
                TempoMode::Group => Some(self.groups[t.idx as int].state.tempo),
                TempoMode::Context => Some(self.tempo_cons[t.idx as int]),
                _ => None,
            }
        }
    }

    /// The tempo of a voice that is described by `t`: a new one of its own,
    /// or the one referred to.
    pub open spec fn voice_link(self, t: TempoRepr) -> TempoLink {
        match self.referred(t) {
            Some(place) => TempoLink::Shared(place),
            None => TempoLink::Own(
                if t.owned {
                    fresh(t, self.sample_rate)
                } else {
                    idle()
                },
            ),
        }
    }

    /// The tempo of a process that is described by `t`: a new one of its
    /// own, the one referred to, or else that of its voice.
    pub open spec fn process_link(self, t: TempoRepr) -> TempoLink {
        match self.referred(t) {
            Some(place) => TempoLink::Shared(place),
            None => if t.owned {
                TempoLink::Own(fresh(t, self.sample_rate))
            } else {
                TempoLink::Owner
            },
        }
    }

    /// The place in the table of the tempo of a group or a tempo context
    /// that is described by `t`: the place referred to, or the end of the
    /// table, where a new tempo goes.
    pub open spec fn place_of(self, t: TempoRepr) -> usize {
        match self.referred(t) {
            Some(place) => place,
            None => self.tempi.len() as usize,
        }
    }

    /// The table with the tempo of a group or a tempo context that is
    /// described by `t`.
    pub open spec fn table_with(self, t: TempoRepr) -> Seq<TempoState> {
        match self.referred(t) {
            Some(_) => self.tempi,
            None => self.tempi.push(
                if t.owned {
                    fresh(t, self.sample_rate)
                } else {
                    idle()
                },
            ),
        }
    }

    /// The voice at `idx`.
    pub open spec fn voice(self, idx: Idx) -> VoiceModel {
        match idx {
            Idx::Member(g, v) => self.groups[g as int].voices[v as int],
            Idx::Voice(v) => self.voices[v as int],
            _ => self.voices[0],
        }
    }

    /// The engine with `voice` at `idx`.
    pub open spec fn with_voice(self, idx: Idx, voice: VoiceModel) -> ConductorModel {
        match idx {
            Idx::Member(g, v) => ConductorModel {
                groups: self.groups.update(
                    g as int,
                    GroupModel {
                        voices: self.groups[g as int].voices.update(v as int, voice),
                        ..self.groups[g as int]
                    },
                ),
                ..self
            },
            Idx::Voice(v) => ConductorModel { voices: self.voices.update(v as int, voice), ..self },
            _ => self,
        }
    }

    /// The engine after `op` on what `idx` addresses.
    pub open spec fn toggle(self, idx: Idx, op: Toggle) -> ConductorModel {
        match idx {
            Idx::Voice(_) => self.with_voice(idx, toggled_voice(self.voice(idx), op)),
            Idx::Member(_, _) => self.with_voice(idx, toggled_voice(self.voice(idx), op)),
            Idx::Group(g) => ConductorModel {
                groups: self.groups.update(g as int, toggled_group(self.groups[g as int], op)),
                tempi: toggled_table(self.tempi, self.groups[g as int].state.tempo, op),
                ..self
            },
            Idx::Tempo(t) => if self.tempo_cons[t as int] < self.tempi.len() {
                ConductorModel {
                    tempi: self.tempi.update(
                        self.tempo_cons[t as int] as int,
                        toggled_tempo(self.tempi[self.tempo_cons[t as int] as int], op),
                    ),
                    ..self
                }
            } else {
                self
            },
            Idx::Process(_) => self,
        }
    }

    /// Whether the engine can run `cmd`: what the command addresses is
    /// there, a track to load has a channel, and the voices that move into a
    /// group are named highest place first, each with one place in the
    /// group.
    pub open spec fn accepts(self, cmd: CommandView) -> bool {
        match cmd {
            CommandView::Load { track_idx, tempo } => track_idx < self.tracks.len()
                && self.tracks[track_idx as int].num_channels >= 1 && self.resolvable(tempo),
            CommandView::Start { idx } => self.has(idx),
            CommandView::Pause { idx } => self.has(idx),
            CommandView::Resume { idx } => self.has(idx),
            CommandView::Stop { idx } => self.has(idx),
            CommandView::Unload { place } => place < self.voices.len(),
            CommandView::Velocity { idx, val } => (idx is Voice || idx is Member) && self.has(idx),
            CommandView::Group { tempo, moves, order } => self.resolvable(tempo) && descending_in(
                move_ids(moves),
                self.voices.len(),
            ) && order.len() == moves.len() && distinct_in(order, moves.len()),
            CommandView::Tc { tempo } => self.resolvable(tempo),
            CommandView::Sequencer { idx, tempo, period, steps, chance, jit, rng } => (idx is Voice
                || idx is Member || idx is Group) && self.has(idx) && self.resolvable(tempo),
            CommandView::Quit => true,
        }
    }

    /// The engine after `cmd`. A group takes the voices that the command
    /// names out of the top level and has, as its `i`-th voice, the one that
    /// the command names at `order[i]`.
    pub open spec fn apply(self, cmd: CommandView) -> ConductorModel {
        match cmd {
            CommandView::Load { track_idx, tempo } => ConductorModel {
                voices: self.voices.push(
                    new_voice(self.tracks[track_idx as int], self.voice_link(tempo)),
                ),
                ..self
            },
            CommandView::Start { idx } => self.toggle(idx, Toggle::Start),
            CommandView::Pause { idx } => self.toggle(idx, Toggle::Pause),
            CommandView::Resume { idx } => self.toggle(idx, Toggle::Resume),
            CommandView::Stop { idx } => self.toggle(idx, Toggle::Stop),
            CommandView::Unload { place } => ConductorModel {
                voices: self.voices.remove(place as int),
                ..self
            },
            CommandView::Velocity { idx, val } => self.with_voice(
                idx,
                VoiceModel {
                    state: VoiceState { velocity: val, ..self.voice(idx).state },
                    ..self.voice(idx)
                },
            ),
            CommandView::Group { tempo, moves, order } => ConductorModel {
                voices: without(self.voices, move_ids(moves)),
                groups: self.groups.push(
                    GroupModel {
                        state: GroupState {
                            active: false,
                            gain: Fixed { raw: 65536 },
                            tempo: self.place_of(tempo),
                        },
                        voices: Seq::new(
                            order.len(),
                            |i: int|
                                adopted(
                                    self.voices[moves[order[i] as int].voice as int],
                                    moves[order[i] as int],
                                    self.place_of(tempo),
                                ),
                        ),
                        processes: Seq::empty(),
                    },
                ),
                tempi: self.table_with(tempo),
                ..self
            },
            CommandView::Tc { tempo } => ConductorModel {
                tempo_cons: self.tempo_cons.push(self.place_of(tempo)),
                tempi: self.table_with(tempo),
                ..self
            },
            CommandView::Sequencer { idx, tempo, period, steps, chance, jit, rng } => {
                let p = ProcessModel::Sequencer(
                    SeqModel {
                        active: true,
                        period,
                        tempo: self.process_link(tempo),
                        steps,
                        chance,
                        jit,
                        rng,
                        idx: 0,
                    },
                );
                match idx {
                    Idx::Group(g) => ConductorModel {
                        groups: self.groups.update(
                            g as int,
                            GroupModel {
                                processes: self.groups[g as int].processes.push(p),
                                ..self.groups[g as int]
                            },
                        ),
                        ..self
                    },
                    _ => self.with_voice(
                        idx,
                        VoiceModel {
                            processes: self.voice(idx).processes.push(p),
                            ..self.voice(idx)
                        },
                    ),
                }
            },
            CommandView::Quit => ConductorModel { quit: true, ..self },
        }
    }
}

impl Voice {
    /// Puts the voice through `op`.
    pub fn toggle(&mut self, op: Toggle)
        ensures
            final(self)@ == toggled_voice(old(self)@, op),
            old(self)@.wf() ==> final(self)@.wf(),
    {
        match op {
            Toggle::Start => self.start(),
            Toggle::Pause => self.pause(),
            Toggle::Resume => self.resume(),
            Toggle::Stop => self.stop(),
        }
    }
}

impl Group {
    /// Puts the group through `op`.
    pub fn toggle(&mut self, tempi: &mut Vec<TempoState>, op: Toggle)
        ensures
            final(self)@ == toggled_group(old(self)@, op),
            final(tempi)@ == toggled_table(old(tempi)@, old(self).state.tempo, op),
            old(self)@.wf() ==> final(self)@.wf(),
    {
        match op {
            Toggle::Start => self.start(tempi),
            Toggle::Pause => self.pause(),
            Toggle::Resume => self.resume(),
            Toggle::Stop => self.stop(tempi),
        }
    }
}

/// Puts a tempo through `op`.
pub fn toggle_tempo(t: &mut TempoState, op: Toggle)
    ensures
        *final(t) == toggled_tempo(*old(t), op),
{
    match op {
        Toggle::Start => t.start(),
        Toggle::Pause => t.pause(),
        Toggle::Resume => t.resume(),
        Toggle::Stop => t.stop(),
    }
}

impl Conductor {
    /// Whether the engine has what `idx` addresses.
    pub fn has(&self, idx: Idx) -> (r: bool)
        ensures
            r == self@.has(idx),
    {
        match idx {
            Idx::Voice(v) => v < self.voices.len(),
            Idx::Member(g, v) => {
                if g < self.groups.len() {
                    assert(self@.groups[g as int].voices.len() == self.groups[g as int].voices.len());
                    v < self.groups[g].voices.len()
                } else {
                    false
                }
            },
            Idx::Group(g) => g < self.groups.len(),
            Idx::Tempo(t) => t < self.tempo_cons.len(),
            Idx::Process(_) => true,
        }
    }

    /// Whether the engine has what the description refers to.
    pub fn resolvable(&self, t: &TempoRepr) -> (r: bool)
        ensures
            r == self@.resolvable(*t),
    {
        if t.owned {
            return true;
        }
        match t.mode {
            TempoMode::Group => t.idx < self.groups.len(),
            TempoMode::Context => t.idx < self.tempo_cons.len(),
            _ => true,
        }
    }

    /// Whether the engine can run `cmd`.
    pub fn accepts(&self, cmd: &Command) -> (r: bool)
        ensures
            r == self@.accepts(cmd@),
    {
        match cmd {
            Command::Load(a) => {
                if a.track_idx < self.tracks.len() {
                    assert(self@.tracks[a.track_idx as int] == self.tracks[a.track_idx as int]@);
                    self.tracks[a.track_idx].num_channels >= 1 && self.resolvable(&a.tempo_repr)
                } else {
                    false
                }
            },
            Command::Start(a) => self.has(a.idx),
            Command::Pause(a) => self.has(a.idx),
            Command::Resume(a) => self.has(a.idx),
            Command::Stop(a) => self.has(a.idx),
            Command::Unload(a) => a.idx < self.voices.len(),
            Command::Velocity(a) => match a.idx {
                Idx::Voice(_) => self.has(a.idx),
                Idx::Member(_, _) => self.has(a.idx),
                _ => false,
            },
            Command::Group(a) => {
                if !self.resolvable(&a.tempo) {
                    return false;
                }
                let ids = places(&a.vs_fs_ps);
                assert(ids@ =~= move_ids(moves_of(a.vs_fs_ps@)));
                descending(&ids, self.voices.len()) && a.order.len() == a.vs_fs_ps.len()
                    && distinct(&a.order, a.vs_fs_ps.len())
            },
            Command::Tc(a) => self.resolvable(&a.tempo),
            Command::Sequencer(a) => match a.idx {
                Idx::Voice(_) => self.has(a.idx) && self.resolvable(&a.tempo),
                Idx::Member(_, _) => self.has(a.idx) && self.resolvable(&a.tempo),
                Idx::Group(_) => self.has(a.idx) && self.resolvable(&a.tempo),
                _ => false,
            },
            Command::Quit(_) => true,
        }
    }

    /// The place in the table that a description refers to.
    fn referred(&self, tr: &TempoRepr) -> (r: Option<usize>)
        requires
            self@.resolvable(*tr),
        ensures
            r == self@.referred(*tr),
    {
        if tr.owned {
            return None;
        }
        match tr.mode {
            TempoMode::Group => {
                assert(self@.groups[tr.idx as int] == self.groups[tr.idx as int]@);
                Some(self.groups[tr.idx].state.tempo)
            },
            TempoMode::Context => Some(self.tempo_cons[tr.idx]),
            _ => None,
        }
    }

    /// The tempo that a description stands for: a new one of the voice's or
    /// the process's own, or a link to the one referred to.
    pub fn tempo_from_repr(&self, tr: &TempoRepr, for_process: bool) -> (r: TempoLink)
        requires
            self@.resolvable(*tr),
        ensures
            r == (if for_process {
                self@.process_link(*tr)
            } else {
                self@.voice_link(*tr)
            }),
    {
        match self.referred(tr) {
            Some(place) => TempoLink::Shared(place),
            None => {
                if tr.owned {
                    TempoLink::Own(make_tempo(tr, self.sample_rate.hz))
                } else if for_process {
                    TempoLink::Owner
                } else {
                    TempoLink::Own(TempoState::new())
                }
            },
        }
    }

    /// Puts the tempo of a group or a tempo context into the table, where it
    /// is a new one, and gives its place.
    fn share(&mut self, tr: &TempoRepr) -> (r: usize)
        requires
            old(self)@.resolvable(*tr),
        ensures
            r == old(self)@.place_of(*tr),
            final(self)@ == (ConductorModel { tempi: old(self)@.table_with(*tr), ..old(self)@ }),
    {
        match self.referred(tr) {
            Some(place) => place,
            None => {
                let t = if tr.owned {
                    make_tempo(tr, self.sample_rate.hz)
                } else {
                    TempoState::new()
                };
                let place = self.tempi.len();
                self.tempi.push(t);
                place
            },
        }
    }

    fn load(&mut self, args: LoadArgs)
        requires
            old(self)@.wf(),
            old(self)@.accepts(Command::Load(args)@),
        ensures
            final(self)@ == old(self)@.apply(Command::Load(args)@),
            final(self)@.wf(),
    {
        let link = self.tempo_from_repr(&args.tempo_repr, false);
        assert(self@.tracks[args.track_idx as int] == self.tracks[args.track_idx as int]@);
        let voice = Voice::new(&self.tracks[args.track_idx], link);
        let ghost before = self.voices@;
        self.voices.push(voice);
        assert(views(self.voices@) =~= views(before).push(voice@));
    }

    /// Puts what `idx` addresses through `op`.
    fn toggle(&mut self, idx: Idx, op: Toggle)
        requires
            old(self)@.wf(),
            old(self)@.has(idx),
        ensures
            final(self)@ == old(self)@.toggle(idx, op),
            final(self)@.wf(),
    {
        match idx {
            Idx::Voice(v) => {
                let ghost before = self.voices@;
                assert(views(before)[v as int].wf());
                self.voices[v].toggle(op);
                assert(views(self.voices@) =~= views(before).update(
                    v as int,
                    toggled_voice(views(before)[v as int], op),
                ));
            },
            Idx::Member(g, v) => {
                let ghost groups = self.groups@;
                let ghost before = self.groups@[g as int].voices@;
                assert(views(groups)[g as int].wf());
                assert(views(before)[v as int].wf());
                self.groups[g].voices[v].toggle(op);
                proof {
                    let after = self.groups@[g as int].voices@;
                    assert(views(after) =~= views(before).update(
                        v as int,
                        toggled_voice(views(before)[v as int], op),
                    ));
                    assert(views(self.groups@) =~= views(groups).update(
                        g as int,
                        self.groups@[g as int]@,
                    ));
                    assert forall|j: int| 0 <= j < self@.groups.len() implies (
                    #[trigger] self@.groups[j]).wf() by {
                        if j != g {
                            assert(views(groups)[j].wf());
                        }
                    }
                }
            },
            Idx::Group(g) => {
                let ghost groups = self.groups@;
                assert(views(groups)[g as int].wf());
                self.groups[g].toggle(&mut self.tempi, op);
                proof {
                    assert(views(self.groups@) =~= views(groups).update(
                        g as int,
                        toggled_group(views(groups)[g as int], op),
                    ));
                    assert forall|j: int| 0 <= j < self@.groups.len() implies (
                    #[trigger] self@.groups[j]).wf() by {
                        if j != g {
                            assert(views(groups)[j].wf());
                        }
                    }
                }
            },
            Idx::Tempo(t) => {
                let place = self.tempo_cons[t];
                if place < self.tempi.len() {
                    toggle_tempo(&mut self.tempi[place], op);
                }
            },
            Idx::Process(_) => {},
        }
    }

    fn start(&mut self, args: StartArgs)
        requires
            old(self)@.wf(),
            old(self)@.accepts(Command::Start(args)@),
        ensures
            final(self)@ == old(self)@.apply(Command::Start(args)@),
            final(self)@.wf(),
    {
        self.toggle(args.idx, Toggle::Start)
    }

    fn pause(&mut self, args: PauseArgs)
        requires
            old(self)@.wf(),
            old(self)@.accepts(Command::Pause(args)@),
        ensures
            final(self)@ == old(self)@.apply(Command::Pause(args)@),
            final(self)@.wf(),
    {
        self.toggle(args.idx, Toggle::Pause)
    }

    fn resume(&mut self, args: ResumeArgs)
        requires
            old(self)@.wf(),
            old(self)@.accepts(Command::Resume(args)@),
        ensures
            final(self)@ == old(self)@.apply(Command::Resume(args)@),
            final(self)@.wf(),
    {
        self.toggle(args.idx, Toggle::Resume)
    }

    fn stop(&mut self, args: StopArgs)
        requires
            old(self)@.wf(),
            old(self)@.accepts(Command::Stop(args)@),
        ensures
            final(self)@ == old(self)@.apply(Command::Stop(args)@),
            final(self)@.wf(),
    {
        self.toggle(args.idx, Toggle::Stop)
    }

    fn unload(&mut self, args: UnloadArgs)
        requires
            old(self)@.wf(),
            old(self)@.accepts(Command::Unload(args)@),
        ensures
            final(self)@ == old(self)@.apply(Command::Unload(args)@),
            final(self)@.wf(),
    {
        let ghost before = self.voices@;
        self.voices.remove(args.idx);
        assert(views(self.voices@) =~= views(before).remove(args.idx as int));
        assert forall|j: int| 0 <= j < self@.voices.len() implies (#[trigger] self@.voices[j]).wf() by {
            if j < args.idx {
                assert(views(before)[j].wf());
            } else {
                assert(views(before)[j + 1].wf());
            }
        }
    }

    fn velocity(&mut self, args: VelocityArgs)
        requires
            old(self)@.wf(),
            old(self)@.accepts(Command::Velocity(args)@),
        ensures
            final(self)@ == old(self)@.apply(Command::Velocity(args)@),
            final(self)@.wf(),
    {
        match args.idx {
            Idx::Voice(v) => {
                let ghost before = self.voices@;
                assert(views(before)[v as int].wf());
                self.voices[v].state.velocity = args.val;
                assert(views(self.voices@) =~= views(before).update(
                    v as int,
                    VoiceModel {
                        state: VoiceState { velocity: args.val, ..views(before)[v as int].state },
                        ..views(before)[v as int]
                    },
                ));
            },
            Idx::Member(g, v) => {
                let ghost groups = self.groups@;
                let ghost before = self.groups@[g as int].voices@;
                assert(views(groups)[g as int].wf());
                assert(views(before)[v as int].wf());
                self.groups[g].voices[v].state.velocity = args.val;
                proof {
                    let after = self.groups@[g as int].voices@;
                    assert(views(after) =~= views(before).update(
                        v as int,
                        VoiceModel {
                            state: VoiceState {
                                velocity: args.val,
                                ..views(before)[v as int].state
                            },
                            ..views(before)[v as int]
                        },
                    ));
                    assert(views(self.groups@) =~= views(groups).update(
                        g as int,
                        self.groups@[g as int]@,
                    ));
                    assert forall|j: int| 0 <= j < self@.groups.len() implies (
                    #[trigger] self@.groups[j]).wf() by {
                        if j != g {
                            assert(views(groups)[j].wf());
                        }
                    }
                }
            },
            _ => {},
        }
    }

    fn group(&mut self, args: GroupArgs)
        requires
            old(self)@.wf(),
            old(self)@.accepts(Command::Group(args)@),
        ensures
            final(self)@ == old(self)@.apply(Command::Group(args)@),
            final(self)@.wf(),
    {
        let ghost c = self@;
        let ghost moves = moves_of(args.vs_fs_ps@);
        let ghost ids = move_ids(moves);
        let place = self.share(&args.tempo);
        let n = args.order.len();
        // the places of the voices in the order of the group
        let mut given: Vec<usize> = Vec::new();
        let mut i: usize = 0;
        while i < n
            invariant
                i <= n,
                n == args.order.len(),
                n == args.vs_fs_ps.len(),
                distinct_in(args.order@, n as nat),
                given@ == Seq::new(i as nat, |a: int| args.vs_fs_ps@[args.order@[a] as int].0),
            decreases n - i,
        {
            given.push(args.vs_fs_ps[args.order[i]].0);
            assert(given@ =~= Seq::new(
                (i + 1) as nat,
                |a: int| args.vs_fs_ps@[args.order@[a] as int].0,
            ));
            i += 1;
        }
        let ghost voices_before = self.voices@;
        proof {
            assert forall|a: int| 0 <= a < given@.len() implies #[trigger] given@[a]
                < c.voices.len() by {
                assert(ids[args.order@[a] as int] < c.voices.len());
            }
            assert forall|a: int, b: int| 0 <= a < b < given@.len() implies given@[a]
                != given@[b] by {
                let x = args.order@[a] as int;
                let y = args.order@[b] as int;
                assert(x != y);
                if x < y {
                    assert(ids[x] > ids[y]);
                } else {
                    assert(ids[y] > ids[x]);
                }
            }
            assert forall|x: usize| given@.contains(x) <==> ids.contains(x) by {
                if given@.contains(x) {
                    let a = choose|a: int| 0 <= a < given@.len() && #[trigger] given@[a] == x;
                    assert(ids[args.order@[a] as int] == x);
                }
                if ids.contains(x) {
                    let j = choose|j: int| 0 <= j < ids.len() && #[trigger] ids[j] == x;
                    lemma_all_places(args.order@, n as nat, j as usize);
                    let a = choose|a: int|
                        0 <= a < args.order@.len() && #[trigger] args.order@[a] == j as usize;
                    assert(given@[a] == x);
                }
            }
        }
        let mut taken = extract(&mut self.voices, &given);
        proof {
            lemma_views_without(voices_before, given@);
            lemma_without_members(c.voices, given@, ids);
            lemma_without_wf(c.voices, ids);
            assert(views(taken@) =~= picked(c.voices, given@));
            assert forall|j: int| 0 <= j < moves.len() implies (#[trigger] moves[j]).voice
                < c.voices.len() by {
                assert(ids[j] < c.voices.len());
            }
        }
        let mut k: usize = 0;
        while k < n
            invariant
                k <= n,
                n == taken.len(),
                n == args.order.len(),
                n == args.vs_fs_ps.len(),
                distinct_in(args.order@, n as nat),
                moves == moves_of(args.vs_fs_ps@),
                all_wf(c.voices),
                forall|j: int| 0 <= j < moves.len() ==> (#[trigger] moves[j]).voice < c.voices.len(),
                forall|j: int| 0 <= j < k ==> (#[trigger] views(taken@)[j]) == adopted(
                    c.voices[moves[args.order@[j] as int].voice as int],
                    moves[args.order@[j] as int],
                    place,
                ),
                forall|j: int| k <= j < n ==> (#[trigger] views(taken@)[j])
                    == c.voices[moves[args.order@[j] as int].voice as int],
            decreases n - k,
        {
            let ghost before = taken@;
            let from: usize = args.order[k];
            assert(views(before)[k as int] == c.voices[moves[from as int].voice as int]);
            assert(moves[from as int].inherit == args.vs_fs_ps@[from as int].1);
            assert(moves[from as int].procs == args.vs_fs_ps@[from as int].2@);
            if args.vs_fs_ps[from].1 {
                adopt(&mut taken[k], &args.vs_fs_ps[from].2, place);
            }
            proof {
                assert forall|j: int| 0 <= j < k + 1 implies (#[trigger] views(taken@)[j])
                    == adopted(
                    c.voices[moves[args.order@[j] as int].voice as int],
                    moves[args.order@[j] as int],
                    place,
                ) by {
                    if j < k {
                        assert(taken@[j] == before[j]);
                        assert(views(before)[j] == adopted(
                            c.voices[moves[args.order@[j] as int].voice as int],
                            moves[args.order@[j] as int],
                            place,
                        ));
                    }
                }
                assert forall|j: int| k + 1 <= j < n implies (#[trigger] views(taken@)[j])
                    == c.voices[moves[args.order@[j] as int].voice as int] by {
                    assert(taken@[j] == before[j]);
                    assert(views(before)[j] == c.voices[moves[args.order@[j] as int].voice as int]);
                }
            }
            k += 1;
        }
        proof {
            assert(views(taken@) =~= Seq::new(
                args.order@.len(),
                |i: int|
                    adopted(
                        c.voices[moves[args.order@[i] as int].voice as int],
                        moves[args.order@[i] as int],
                        place,
                    ),
            ));
            assert forall|j: int| 0 <= j < taken.len() implies (#[trigger] views(taken@)[j]).wf() by {
                assert(c.voices[moves[args.order@[j] as int].voice as int].wf());
            }
        }
        let group = Group::new(taken, place);
        let ghost groups_before = self.groups@;
        self.groups.push(group);
        proof {
            assert(views(self.groups@) =~= views(groups_before).push(group@));
            assert forall|j: int| 0 <= j < self@.groups.len() implies (#[trigger] self@.groups[j]).wf() by {
                if j < groups_before.len() {
                    assert(views(groups_before)[j].wf());
                }
            }
        }
    }

    fn tempo_context(&mut self, args: TcArgs)
        requires
            old(self)@.wf(),
            old(self)@.accepts(Command::Tc(args)@),
        ensures
            final(self)@ == old(self)@.apply(Command::Tc(args)@),
            final(self)@.wf(),
    {
        let place = self.share(&args.tempo);
        self.tempo_cons.push(place);
    }

    fn seq(&mut self, args: SeqArgs)
        requires
            old(self)@.wf(),
            old(self)@.accepts(Command::Sequencer(args)@),
        ensures
            final(self)@ == old(self)@.apply(Command::Sequencer(args)@),
            final(self)@.wf(),
    {
        let link = self.tempo_from_repr(&args.tempo, true);
        let idx = args.idx;
        let state = SeqState {
            active: true,
            period: args.period,
            tempo: link,
            steps: args.steps,
            chance: args.chance,
            jit: args.jit,
            rng: args.rng,
            idx: 0,
        };
        let process = Process::Sequencer(Sequencer { state });
        match idx {
            Idx::Voice(v) => {
                let ghost before = self.voices@;
                assert(views(before)[v as int].wf());
                let ghost procs = self.voices@[v as int].processes@;
                self.voices[v].processes.push(process);
                proof {
                    assert(views(self.voices@[v as int].processes@) =~= views(procs).push(process@));
                    assert(views(self.voices@) =~= views(before).update(
                        v as int,
                        VoiceModel {
                            processes: views(before)[v as int].processes.push(process@),
                            ..views(before)[v as int]
                        },
                    ));
                }
            },
            Idx::Member(g, v) => {
                let ghost groups = self.groups@;
                let ghost before = self.groups@[g as int].voices@;
                let ghost procs = self.groups@[g as int].voices@[v as int].processes@;
                assert(views(groups)[g as int].wf());
                assert(views(before)[v as int].wf());
                self.groups[g].voices[v].processes.push(process);
                proof {
                    let after = self.groups@[g as int].voices@;
                    assert(views(after[v as int].processes@) =~= views(procs).push(process@));
                    assert(views(after) =~= views(before).update(
                        v as int,
                        VoiceModel {
                            processes: views(before)[v as int].processes.push(process@),
                            ..views(before)[v as int]
                        },
                    ));
                    assert(views(self.groups@) =~= views(groups).update(
                        g as int,
                        self.groups@[g as int]@,
                    ));
                    assert forall|j: int| 0 <= j < self@.groups.len() implies (
                    #[trigger] self@.groups[j]).wf() by {
                        if j != g {
                            assert(views(groups)[j].wf());
                        }
                    }
                }
            },
            Idx::Group(g) => {
                let ghost groups = self.groups@;
                let ghost procs = self.groups@[g as int].processes@;
                assert(views(groups)[g as int].wf());
                self.groups[g].processes.push(process);
                proof {
                    assert(views(self.groups@[g as int].processes@) =~= views(procs).push(process@));
                    assert(views(self.groups@) =~= views(groups).update(
                        g as int,
                        GroupModel {
                            processes: views(groups)[g as int].processes.push(process@),
                            ..views(groups)[g as int]
                        },
                    ));
                    assert forall|j: int| 0 <= j < self@.groups.len() implies (
                    #[trigger] self@.groups[j]).wf() by {
                        if j != g {
                            assert(views(groups)[j].wf());
                        }
                    }
                }
            },
            _ => {},
        }
    }

    /// Runs a command.
    pub fn apply(&mut self, cmd: Command)
        requires
            old(self)@.wf(),
            old(self)@.accepts(cmd@),
        ensures
            final(self)@ == old(self)@.apply(cmd@),
            final(self)@.wf(),
    {
        match cmd {
            Command::Load(args) => self.load(args),
            Command::Start(args) => self.start(args),
            Command::Pause(args) => self.pause(args),
            Command::Resume(args) => self.resume(args),
            Command::Stop(args) => self.stop(args),
            Command::Unload(args) => self.unload(args),
            Command::Velocity(args) => self.velocity(args),
            Command::Group(args) => self.group(args),
            Command::Tc(args) => self.tempo_context(args),
            Command::Sequencer(args) => self.seq(args),
            Command::Quit(_) => {
                self.quit = true;
            },
        }
    }
}

/// The places at the top level of the voices that move.
fn places(moves: &Vec<(usize, bool, Vec<usize>)>) -> (r: Vec<usize>)
    ensures
        r@ == Seq::new(moves@.len(), |k: int| moves@[k].0),
{
    let mut r: Vec<usize> = Vec::new();
    let mut k: usize = 0;
    while k < moves.len()
        invariant
            k <= moves.len(),
            r@ == Seq::new(k as nat, |j: int| moves@[j].0),
        decreases moves.len() - k,
    {
        r.push(moves[k].0);
        assert(r@ =~= Seq::new((k + 1) as nat, |j: int| moves@[j].0));
        k += 1;
    }
    r
}

/// Lets a voice and its processes at `procs` follow the tempo at `place`.
fn adopt(voice: &mut Voice, procs: &Vec<usize>, place: usize)
    ensures
        final(voice)@ == adopted(
            old(voice)@,
            MoveView { voice: 0, inherit: true, procs: procs@ },
            place,
        ),
{
    voice.state.tempo = TempoLink::Shared(place);
    let ghost orig = views(voice.processes@);
    let mut k: usize = 0;
    while k < procs.len()
        invariant
            k <= procs.len(),
            voice.samples == old(voice).samples,
            voice.sample_rate == old(voice).sample_rate,
            voice.channels == old(voice).channels,
            voice.state == (VoiceState { tempo: TempoLink::Shared(place), ..old(voice).state }),
            orig == old(voice)@.processes,
            views(voice.processes@) == rebind(orig, procs@, TempoLink::Shared(place), k as int),
        decreases procs.len() - k,
    {
        let at = procs[k];
        if at < voice.processes.len() {
            let ghost before = voice.processes@;
            voice.processes[at].update_tempo(TempoLink::Shared(place));
            assert(views(voice.processes@) =~= views(before).update(
                at as int,
                views(before)[at as int].with_link(TempoLink::Shared(place)),
            ));
        }
        k += 1;
    }
}

/// What is left of a list of sound voices is sound.
pub proof fn lemma_without_wf(voices: Seq<VoiceModel>, ids: Seq<usize>)
    requires
        all_wf(voices),
    ensures
        all_wf(without(voices, ids)),
    decreases voices.len(),
{
    if voices.len() > 0 {
        assert(all_wf(voices.drop_last())) by {
            assert forall|i: int| 0 <= i < voices.drop_last().len() implies (
            #[trigger] voices.drop_last()[i]).wf() by {
                assert(voices[i].wf());
            }
        }
        lemma_without_wf(voices.drop_last(), ids);
        assert(voices.last().wf());
    }
}

} // verus!
