//! The command processor: reads a line, checks it against the mirror, and
//! gives the command that the engine is to run, with the mirror brought to
//! the state that the engine will be in once it has run it.

use vstd::prelude::*;
use crate::audio_processing::blast_rand::X128P;
use crate::audio_processing::blast_time::{TempoMode, TempoUnit};
use crate::audio_processing::commands::{
    CmdErr,
    CmdErrView,
    Command,
    GroupArgs,
    Idx,
    LoadArgs,
    PauseArgs,
    QuitArgs,
    ResumeArgs,
    SeqArgs,
    StartArgs,
    StopArgs,
    TcArgs,
    TempoRepr,
    UnloadArgs,
    VelocityArgs,
    moves_of,
};
use crate::audio_processing::fixed::Fixed;
use crate::audio_processing::grammar::{
    GroupOpts,
    Outcome,
    SeqOpts,
    TempoRules,
    adopts,
    args_of,
    attached,
    default_group_tempo,
    first_special,
    following,
    invalid,
    is_special,
    member,
    missing,
    move_of,
    no_item,
    rebound,
    resized,
    set_range,
    spec_chance_at,
    spec_chance_range,
    spec_chance_token,
    spec_chances,
    spec_find_item,
    spec_find_voice,
    spec_get_idx,
    spec_group_opts,
    spec_load_opts,
    spec_numbers,
    spec_parse,
    spec_resolve,
    spec_seq_opts,
    spec_target,
    spec_tempo,
    spec_try_group,
    spec_try_load,
    spec_try_pause,
    spec_try_resume,
    spec_try_seq,
    spec_try_start,
    spec_try_stop,
    spec_try_tc,
    spec_try_unload,
    spec_try_velocity,
    spec_unit,
    step_index,
    verb_of,
    voice_at,
};
use crate::audio_processing::invariants::lemma_parse_wf;
use crate::audio_processing::lists::{
    ascending,
    distinct_in,
    extract,
    holds,
    lemma_places_among,
    lemma_places_len,
    lemma_position_found,
    lemma_views_without,
    picked,
    places_among,
    position,
    position_of,
    reverse,
    reversed,
    views,
};
use crate::audio_processing::mirror::{
    EngineState,
    GroupRepr,
    MirrorView,
    Named,
    NamedView,
    ProcRepr,
    VoiceRepr,
    find,
    has_name,
    lemma_view_bounded,
    renumber,
};
use crate::audio_processing::text::{
    chars_of,
    copy_range,
    find_from,
    is_word,
    lines,
    parse_fixed,
    parse_usize,
    spec_words,
    split,
    words,
};

verus! {

/// Whether `r` is what `s` says: the same value, or an error with the same
/// text.
pub open spec fn same<T>(r: Result<T, CmdErr>, s: Result<T, CmdErrView>) -> bool {
    match r {
        Ok(x) => s == Ok::<T, CmdErrView>(x),
        Err(e) => s == Err::<T, CmdErrView>(e@),
    }
}

/// Whether a result and the mirrors before and after it are what `o` says.
pub open spec fn agrees(
    r: Result<Command, CmdErr>,
    before: MirrorView,
    after: MirrorView,
    o: Outcome,
) -> bool {
    match r {
        Ok(c) => o == (Outcome::Done { cmd: c@, mirror: after }),
        Err(e) => o == (Outcome::Failed { err: e@ }) && after == before,
    }
}

/// Checks command lines against the mirror and turns them into commands.
pub struct CmdProcessor {
    pub engine_state: EngineState,
}

impl CmdProcessor {
    pub fn new(engine_state: EngineState) -> (r: CmdProcessor)
        ensures
            r.engine_state == engine_state,
    {
        CmdProcessor { engine_state }
    }

    /// Finds the track called `name`.
    pub fn find_track(&self, name: &Vec<char>) -> (r: Result<usize, CmdErr>)
        ensures
            same(r, spec_find_item(self.engine_state@.tracks, "track"@, name@)),
            r matches Ok(i) ==> i < self.engine_state.tracks.len(),
    {
        match find(&self.engine_state.tracks, name) {
            Some(i) => Ok(i),
            None => Err(CmdErr::no_item("track", name)),
        }
    }

    /// Finds the group called `name`.
    pub fn find_group(&self, name: &Vec<char>) -> (r: Result<usize, CmdErr>)
        ensures
            same(r, spec_find_item(self.engine_state@.groups, "Group"@, name@)),
            r matches Ok(i) ==> i < self.engine_state.groups.len(),
    {
        match find(&self.engine_state.groups, name) {
            Some(i) => Ok(i),
            None => Err(CmdErr::no_item("Group", name)),
        }
    }

    /// Finds the tempo context called `name`.
    pub fn find_tc(&self, name: &Vec<char>) -> (r: Result<usize, CmdErr>)
        ensures
            same(r, spec_find_item(self.engine_state@.tempo_cons, "TempoContext"@, name@)),
            r matches Ok(i) ==> i < self.engine_state.tempo_cons.len(),
    {
        match find(&self.engine_state.tempo_cons, name) {
            Some(i) => Ok(i),
            None => Err(CmdErr::no_item("TempoContext", name)),
        }
    }

    /// Finds the voice that `name` means.
    pub fn find_voice(&self, name: &Vec<char>) -> (r: Result<Idx, CmdErr>)
        ensures
            same(r, spec_find_voice(self.engine_state@, name@)),
            r matches Ok(Idx::Voice(v)) ==> v < self.engine_state.voices.len(),
            r matches Ok(Idx::Member(g, v)) ==> g < self.engine_state.groups.len() && v
                < self.engine_state.groups[g as int].item.voices.len(),
            r matches Ok(i) ==> i is Voice || i is Member,
    {
        let parts = split(name, '.');
        if parts.len() > 2 {
            return Err(CmdErr::formatting("Too many delimiters for format group.voice"));
        }
        assert(lines(parts@)[0] == parts@[0]@);
        if parts.len() == 1 {
            return match find(&self.engine_state.voices, &parts[0]) {
                Some(v) => Ok(Idx::Voice(v)),
                None => Err(CmdErr::no_voice(&parts[0])),
            };
        }
        assert(lines(parts@)[1] == parts@[1]@);
        match self.find_group(&parts[0]) {
            Err(e) => Err(e),
            Ok(g) => {
                assert(views(self.engine_state.groups@)[g as int].item.voices == views(
                    self.engine_state.groups@[g as int].item.voices@,
                ));
                match find(&self.engine_state.groups[g].item.voices, &parts[1]) {
                    Some(v) => Ok(Idx::Member(g, v)),
                    None => Err(CmdErr::no_member(&parts[1], &parts[0])),
                }
            },
        }
    }

    /// Finds what a flag and a name address.
    pub fn get_idx(&self, ty: &Vec<char>, name: &Vec<char>) -> (r: Result<Idx, CmdErr>)
        ensures
            same(r, spec_get_idx(self.engine_state@, ty@, name@)),
    {
        if is_word(ty, "-v") || is_word(ty, "--voice") {
            self.find_voice(name)
        } else if is_word(ty, "-g") || is_word(ty, "--group") {
            match self.find_group(name) {
                Ok(g) => Ok(Idx::Group(g)),
                Err(e) => Err(e),
            }
        } else if is_word(ty, "-t") || is_word(ty, "--tempocontext") {
            match self.find_tc(name) {
                Ok(t) => Ok(Idx::Tempo(t)),
                Err(e) => Err(e),
            }
        } else {
            Err(CmdErr::missing("type", "-v/-g/-t"))
        }
    }

    /// Reads a flag and a name and finds what they address.
    pub fn parse_type_and_name(&self, args: &Vec<char>, cmd: &str) -> (r: Result<Idx, CmdErr>)
        ensures
            same(r, spec_target(self.engine_state@, args@, cmd@)),
    {
        let w = words(args);
        if w.len() == 0 {
            return Err(CmdErr::missing("type and name", cmd));
        }
        if w.len() == 1 {
            return Err(CmdErr::missing("type or name", cmd));
        }
        assert(lines(w@)[0] == w@[0]@);
        assert(lines(w@)[1] == w@[1]@);
        self.get_idx(&w[0], &w[1])
    }

    /// Reads the arguments of `start`.
    pub fn try_start(&mut self, args: &Vec<char>) -> (r: Result<Command, CmdErr>)
        ensures
            agrees(
                r,
                old(self).engine_state@,
                final(self).engine_state@,
                spec_try_start(old(self).engine_state@, args@),
            ),
    {
        match self.parse_type_and_name(args, "start") {
            Ok(idx) => Ok(Command::Start(StartArgs { idx })),
            Err(e) => Err(e),
        }
    }

    /// Reads the arguments of `pause`.
    pub fn try_pause(&mut self, args: &Vec<char>) -> (r: Result<Command, CmdErr>)
        ensures
            agrees(
                r,
                old(self).engine_state@,
                final(self).engine_state@,
                spec_try_pause(old(self).engine_state@, args@),
            ),
    {
        match self.parse_type_and_name(args, "pause") {
            Ok(idx) => Ok(Command::Pause(PauseArgs { idx })),
            Err(e) => Err(e),
        }
    }

    /// Reads the arguments of `resume`.
    pub fn try_resume(&mut self, args: &Vec<char>) -> (r: Result<Command, CmdErr>)
        ensures
            agrees(
                r,
                old(self).engine_state@,
                final(self).engine_state@,
                spec_try_resume(old(self).engine_state@, args@),
            ),
    {
        match self.parse_type_and_name(args, "resume") {
            Ok(idx) => Ok(Command::Resume(ResumeArgs { idx })),
            Err(e) => Err(e),
        }
    }

    /// Reads the arguments of `stop`.
    pub fn try_stop(&mut self, args: &Vec<char>) -> (r: Result<Command, CmdErr>)
        ensures
            agrees(
                r,
                old(self).engine_state@,
                final(self).engine_state@,
                spec_try_stop(old(self).engine_state@, args@),
            ),
    {
        match self.parse_type_and_name(args, "stop") {
            Ok(idx) => Ok(Command::Stop(StopArgs { idx })),
            Err(e) => Err(e),
        }
    }

    /// Reads the argument of `-t`.
    pub fn tempo_spec(
        &self,
        tok: &Vec<char>,
        mode: TempoMode,
        idx: usize,
        label: &str,
        groups: bool,
        voice: Option<TempoRepr>,
    ) -> (r: Result<TempoRepr, CmdErr>)
        ensures
            same(
                r,
                spec_tempo(
                    self.engine_state@,
                    tok@,
                    TempoRules { mode, idx, label: label@, groups, voice },
                ),
            ),
    {
        let parts = split(tok, ':');
        assert(lines(parts@)[0] == parts@[0]@);
        match voice {
            Some(t) => {
                if is_word(&parts[0], "v") && parts.len() <= 2 {
                    return Ok(TempoRepr::clone_owner(&t));
                }
            },
            None => {},
        }
        if parts.len() != 2 {
            return Err(CmdErr::TempoFormatting);
        }
        assert(lines(parts@)[1] == parts@[1]@);
        if is_word(&parts[0], "c") {
            return match self.find_tc(&parts[1]) {
                Ok(c) => Ok(TempoRepr::clone_owner(&self.engine_state.tempo_cons[c].item)),
                Err(e) => Err(e),
            };
        }
        if groups && is_word(&parts[0], "g") {
            return match self.find_group(&parts[1]) {
                Ok(g) => Ok(TempoRepr::clone_owner(&self.engine_state.groups[g].item.tempo)),
                Err(e) => Err(e),
            };
        }
        let unit = match unit_of(&parts[0]) {
            Some(u) => u,
            None => {
                return Err(CmdErr::invalid(&parts[0], label));
            },
        };
        match parse_fixed(&parts[1]) {
            None => Err(CmdErr::invalid(&parts[1], label)),
            Some(interval) => {
                if interval.raw <= 0 {
                    Err(CmdErr::invalid(&parts[1], label))
                } else {
                    Ok(TempoRepr { idx, owned: true, mode, unit, interval })
                }
            },
        }
    }

    /// Reads the arguments of `load` and puts the new voice into the mirror.
    pub fn try_load(&mut self, args: &Vec<char>) -> (r: Result<Command, CmdErr>)
        ensures
            agrees(
                r,
                old(self).engine_state@,
                final(self).engine_state@,
                spec_try_load(old(self).engine_state@, args@),
            ),
    {
        let ghost m = self.engine_state@;
        let w = words(args);
        if w.len() == 0 {
            return Err(CmdErr::missing("name", "load"));
        }
        assert(lines(w@)[0] == w@[0]@);
        let track_idx = match self.find_track(&w[0]) {
            Ok(t) => self.engine_state.tracks[t].item.idx,
            Err(e) => {
                return Err(e);
            },
        };
        if find(&self.engine_state.voices, &w[0]).is_some() || self.find_voice(&w[0]).is_ok() {
            return Err(CmdErr::already("Voice", &w[0]));
        }
        let mut tempo_repr = TempoRepr::new(0);
        let mut i: usize = 1;
        while i < w.len()
            invariant
                1 <= i,
                m == self.engine_state@,
                *self == *old(self),
                lines(w@) == spec_words(args@),
                w.len() > 0,
                has_name(m.tracks, w@[0]@),
                !(has_name(m.voices, w@[0]@) || spec_find_voice(m, w@[0]@).is_ok()),
                spec_load_opts(m, lines(w@), i as int, tempo_repr) == spec_load_opts(
                    m,
                    lines(w@),
                    1,
                    TempoRepr::spec_new(0),
                ),
            decreases w.len() - i,
        {
            assert(lines(w@)[i as int] == w@[i as int]@);
            if is_word(&w[i], "-t") || is_word(&w[i], "--tempo") {
                if i + 1 >= w.len() {
                    return Err(CmdErr::missing("unit", "load -t/--tempo"));
                }
                assert(lines(w@)[i + 1] == w@[i + 1]@);
                match self.tempo_spec(&w[i + 1], TempoMode::Voice, 0, "load -t", true, None) {
                    Ok(t) => {
                        tempo_repr = t;
                    },
                    Err(e) => {
                        return Err(e);
                    },
                }
                i += 2;
            } else {
                return Err(CmdErr::invalid(&w[i], "load"));
            }
        }
        let idx = self.engine_state.voices.len();
        let name = copy_range(&w[0], 0, w[0].len());
        assert(name@ =~= w@[0]@);
        let ghost before = self.engine_state.voices@;
        let entry = Named { name, item: VoiceRepr::new(idx, TempoRepr::clone(&tempo_repr)) };
        self.engine_state.voices.push(entry);
        assert(views(self.engine_state.voices@) =~= views(before).push(entry@));
        Ok(Command::Load(LoadArgs { track_idx, tempo_repr }))
    }

    /// Reads the argument of `unload` and takes the voice out of the mirror.
    pub fn try_unload(&mut self, name: &Vec<char>) -> (r: Result<Command, CmdErr>)
        ensures
            agrees(
                r,
                old(self).engine_state@,
                final(self).engine_state@,
                spec_try_unload(old(self).engine_state@, name@),
            ),
    {
        let idx = match find(&self.engine_state.voices, name) {
            Some(at) => at,
            None => {
                return Err(CmdErr::no_voice(name));
            },
        };
        let ghost before = self.engine_state.voices@;
        self.engine_state.voices.remove(idx);
        assert(views(self.engine_state.voices@) =~= views(before).remove(idx as int));
        renumber(&mut self.engine_state.voices);
        Ok(Command::Unload(UnloadArgs { idx }))
    }

    /// Reads the arguments of `velocity`.
    pub fn try_velocity(&mut self, args: &Vec<char>) -> (r: Result<Command, CmdErr>)
        ensures
            agrees(
                r,
                old(self).engine_state@,
                final(self).engine_state@,
                spec_try_velocity(old(self).engine_state@, args@),
            ),
    {
        let cut = find_from(args, 0, ' ');
        assert(args@.skip(0) =~= args@);
        let name = copy_range(args, 0, cut);
        assert(name@ =~= args@.take(cut as int));
        let idx = match self.find_voice(&name) {
            Ok(idx) => idx,
            Err(e) => {
                return Err(e);
            },
        };
        if cut >= args.len() {
            return Err(CmdErr::missing("value", "velocity"));
        }
        let raw = copy_range(args, cut + 1, args.len());
        assert(raw@ =~= args@.skip(cut as int + 1));
        match parse_fixed(&raw) {
            Some(val) => Ok(Command::Velocity(VelocityArgs { idx, val })),
            None => Err(CmdErr::invalid(&raw, "velocity")),
        }
    }

    /// Reads the arguments of `tc` and puts the new tempo context into the
    /// mirror.
    pub fn try_tc(&mut self, args: &Vec<char>) -> (r: Result<Command, CmdErr>)
        ensures
            agrees(
                r,
                old(self).engine_state@,
                final(self).engine_state@,
                spec_try_tc(old(self).engine_state@, args@),
            ),
    {
        let w = words(args);
        if w.len() == 0 {
            return Err(CmdErr::missing("name", "tempocon"));
        }
        if w.len() == 1 {
            return Err(CmdErr::missing("tempo", "tempocon"));
        }
        assert(lines(w@)[0] == w@[0]@);
        assert(lines(w@)[1] == w@[1]@);
        if find(&self.engine_state.tempo_cons, &w[0]).is_some() {
            return Err(CmdErr::already("TempoContext", &w[0]));
        }
        let parts = split(&w[1], ':');
        if parts.len() != 2 {
            return Err(CmdErr::TempoFormatting);
        }
        assert(lines(parts@)[0] == parts@[0]@);
        if unit_of(&parts[0]).is_none() {
            return Err(CmdErr::invalid(&parts[0], "-t/--tempo"));
        }
        let idx = self.engine_state.tempo_cons.len();
        let tempo = match self.tempo_spec(
            &w[1],
            TempoMode::Context,
            idx,
            "-t/--tempo",
            false,
            None,
        ) {
            Ok(t) => t,
            Err(e) => {
                return Err(e);
            },
        };
        let name = copy_range(&w[0], 0, w[0].len());
        assert(name@ =~= w@[0]@);
        let ghost before = self.engine_state.tempo_cons@;
        let entry = Named { name, item: TempoRepr::clone(&tempo) };
        self.engine_state.tempo_cons.push(entry);
        assert(views(self.engine_state.tempo_cons@) =~= views(before).push(entry@));
        Ok(Command::Tc(TcArgs { tempo }))
    }

    /// Reads the arguments of `group` and moves the voices into the new group in
    /// the mirror.
    pub fn try_group(&mut self, args: &Vec<char>) -> (r: Result<Command, CmdErr>)
        ensures
            agrees(
                r,
                old(self).engine_state@,
                final(self).engine_state@,
                spec_try_group(old(self).engine_state@, args@),
            ),
    {
        let ghost m = self.engine_state@;
        let w = words(args);
        if w.len() == 0 {
            return Err(CmdErr::missing("name", "group"));
        }
        assert(lines(w@)[0] == w@[0]@);
        if find(&self.engine_state.groups, &w[0]).is_some() {
            return Err(CmdErr::already("Group", &w[0]));
        }
        let at = self.engine_state.groups.len();
        let mut tempo = TempoRepr {
            idx: at,
            owned: true,
            mode: TempoMode::Group,
            unit: TempoUnit::Bpm,
            interval: Fixed { raw: 15728640 },
        };
        let mut names: Vec<Vec<char>> = Vec::new();
        let ghost start = GroupOpts { tempo, names: Seq::empty() };
        assert(lines(names@) =~= Seq::<Seq<char>>::empty());
        let mut i: usize = 1;
        while i < w.len()
            invariant
                1 <= i,
                m == self.engine_state@,
                *self == *old(self),
                at == m.groups.len(),
                lines(w@) == spec_words(args@),
                w.len() > 0,
                !has_name(m.groups, w@[0]@),
                start == (GroupOpts {
                    tempo: default_group_tempo(m.groups.len() as usize),
                    names: Seq::empty(),
                }),
                spec_group_opts(
                    m,
                    lines(w@),
                    i as int,
                    GroupOpts { tempo, names: lines(names@) },
                ) == spec_group_opts(m, lines(w@), 1, start),
            decreases w.len() - i,
        {
            assert(lines(w@)[i as int] == w@[i as int]@);
            if is_word(&w[i], "-t") || is_word(&w[i], "--tempo") {
                if i + 1 >= w.len() {
                    return Err(CmdErr::missing("arguments", "group -t"));
                }
                assert(lines(w@)[i + 1] == w@[i + 1]@);
                match self.tempo_spec(&w[i + 1], TempoMode::Group, at, "group -t", false, None) {
                    Ok(t) => {
                        tempo = t;
                    },
                    Err(e) => {
                        return Err(e);
                    },
                }
            } else if is_word(&w[i], "-v") || is_word(&w[i], "--voices") {
                if i + 1 >= w.len() {
                    return Err(CmdErr::missing("arguments", "group -v"));
                }
                assert(lines(w@)[i + 1] == w@[i + 1]@);
                let mut pieces = split(&w[i + 1], ',');
                let ghost before = lines(names@);
                let ghost more = lines(pieces@);
                names.append(&mut pieces);
                assert(lines(names@) =~= before + more);
            } else {
                return Err(CmdErr::invalid(&w[i], "group"));
            }
            i += 2;
        }
        let ids = match self.resolve(&names) {
            Ok(ids) => ids,
            Err(e) => {
                return Err(e);
            },
        };
        let places = self.engine_state.voices.len();
        let ghost voices_before = self.engine_state.voices@;
        let mut taken = extract(&mut self.engine_state.voices, &ids);
        proof {
            lemma_views_without(voices_before, ids@);
            assert(views(taken@) =~= picked(m.voices, ids@));
        }
        renumber(&mut self.engine_state.voices);
        let mut named: Vec<(usize, bool, Vec<usize>)> = Vec::new();
        let mut k: usize = 0;
        while k < taken.len()
            invariant
                k <= taken.len(),
                taken.len() == ids.len(),
                named.len() == k,
                distinct_in(ids@, m.voices.len()),
                forall|j: int| 0 <= j < k ==> (#[trigger] views(taken@)[j]) == member(
                    m.voices[ids@[j] as int],
                    j,
                    tempo,
                ),
                forall|j: int| k <= j < taken.len() ==> (#[trigger] views(taken@)[j])
                    == m.voices[ids@[j] as int],
                forall|j: int| 0 <= j < k ==> (#[trigger] moves_of(named@)[j])
                    == move_of(m.voices[ids@[j] as int].item, ids@[j]),
            decreases taken.len() - k,
        {
            let ghost before = taken@;
            let ghost moves_before = named@;
            assert(views(before)[k as int] == m.voices[ids@[k as int] as int]);
            let (inherit, procs) = join(&mut taken[k], k, &tempo);
            named.push((ids[k], inherit, procs));
            proof {
                assert forall|j: int| 0 <= j < k + 1 implies (#[trigger] views(taken@)[j])
                    == member(m.voices[ids@[j] as int], j, tempo) by {
                    if j < k {
                        assert(taken@[j] == before[j]);
                        assert(views(before)[j] == member(m.voices[ids@[j] as int], j, tempo));
                    }
                }
                assert forall|j: int| k + 1 <= j < taken.len() implies (#[trigger] views(
                    taken@,
                )[j]) == m.voices[ids@[j] as int] by {
                    assert(taken@[j] == before[j]);
                    assert(views(before)[j] == m.voices[ids@[j] as int]);
                }
                assert forall|j: int| 0 <= j < k + 1 implies (#[trigger] moves_of(
                    named@,
                )[j]) == move_of(m.voices[ids@[j] as int].item, ids@[j]) by {
                    if j < k {
                        assert(named@[j] == moves_before[j]);
                        assert(moves_of(moves_before)[j] == move_of(
                            m.voices[ids@[j] as int].item,
                            ids@[j],
                        ));
                    }
                }
            }
            k += 1;
        }
        // the engine is told of the voices highest place first, and where in
        // that list each voice of the group is found
        let rising = ascending(&ids, places);
        let falling = reverse(&rising);
        proof {
            assert(m.voices.len() == places);
            lemma_places_among(m.voices.len(), ids@);
            lemma_places_len(m.voices.len(), ids@);
        }
        let ghost told = named@;
        let mut perm: Vec<usize> = Vec::new();
        let mut j: usize = 0;
        while j < falling.len()
            invariant
                j <= falling.len(),
                perm.len() == j,
                told.len() == ids.len(),
                falling@ == reversed(rising@),
                rising@ == places_among(m.voices.len(), ids@),
                forall|i: int| 0 <= i < rising@.len() ==> ids@.contains(#[trigger] rising@[i]),
                forall|a: int| 0 <= a < j ==> #[trigger] perm@[a] < ids.len() && ids@[perm@[a] as int]
                    == falling@[a],
            decreases falling.len() - j,
        {
            let at = position(&ids, falling[j]);
            proof {
                assert(falling@[j as int] == rising@[rising@.len() - 1 - j]);
                assert(ids@.contains(falling@[j as int]));
                lemma_position_found(ids@, falling@[j as int]);
            }
            perm.push(at);
            j += 1;
        }
        let mut order: Vec<usize> = Vec::new();
        let mut i: usize = 0;
        while i < ids.len()
            invariant
                i <= ids.len(),
                order@ == Seq::new(i as nat, |a: int| position_of(falling@, ids@[a]) as usize),
            decreases ids.len() - i,
        {
            order.push(position(&falling, ids[i]));
            assert(order@ =~= Seq::new(
                (i + 1) as nat,
                |a: int| position_of(falling@, ids@[a]) as usize,
            ));
            i += 1;
        }
        proof {
            assert(distinct_in(perm@, told.len())) by {
                assert forall|a: int, b: int| 0 <= a < b < perm@.len() implies perm@[a]
                    != perm@[b] by {
                    assert(ids@[perm@[a] as int] == falling@[a]);
                    assert(ids@[perm@[b] as int] == falling@[b]);
                    assert(rising@[rising@.len() - 1 - b] < rising@[rising@.len() - 1 - a]);
                }
            }
        }
        let moves = extract(&mut named, &perm);
        let name = copy_range(&w[0], 0, w[0].len());
        assert(name@ =~= w@[0]@);
        let ghost members = views(taken@);
        let group = GroupRepr::new(at, TempoRepr::clone(&tempo), taken);
        let ghost groups_before = self.engine_state.groups@;
        let entry = Named { name, item: group };
        self.engine_state.groups.push(entry);
        proof {
            assert(views(self.engine_state.groups@) =~= views(groups_before).push(entry@));
            assert(members =~= Seq::new(
                ids@.len(),
                |k: int| member(m.voices[ids@[k] as int], k, tempo),
            ));
            assert forall|j: int| 0 <= j < moves@.len() implies moves_of(moves@)[j] == move_of(
                m.voices[falling@[j] as int].item,
                falling@[j],
            ) by {
                assert(moves@[j] == told[perm@[j] as int]);
                assert(moves_of(told)[perm@[j] as int] == move_of(
                    m.voices[ids@[perm@[j] as int] as int].item,
                    ids@[perm@[j] as int],
                ));
            }
            assert(moves_of(moves@) =~= Seq::new(
                falling@.len(),
                |j: int| move_of(m.voices[falling@[j] as int].item, falling@[j]),
            ));
        }
        Ok(Command::Group(GroupArgs { tempo, vs_fs_ps: moves, order }))
    }

    /// Reads the arguments of `seq` and notes the new sequencer in the mirror.
    pub fn try_seq(&mut self, args: &Vec<char>, seed: u64) -> (r: Result<Command, CmdErr>)
        ensures
            agrees(
                r,
                old(self).engine_state@,
                final(self).engine_state@,
                spec_try_seq(old(self).engine_state@, args@, seed),
            ),
    {
        let ghost m = self.engine_state@;
        let w = words(args);
        if w.len() == 0 {
            return Err(CmdErr::missing("name", "seq"));
        }
        assert(lines(w@)[0] == w@[0]@);
        let idx = match self.find_voice(&w[0]) {
            Ok(idx) => idx,
            Err(e) => {
                return Err(e);
            },
        };
        let (own, tempi): (TempoRepr, usize) = match idx {
            Idx::Voice(v) => (
                self.engine_state.voices[v].item.tempo,
                self.engine_state.voices[v].item.proc_tempi.len(),
            ),
            Idx::Member(g, v) => {
                assert(views(self.engine_state.groups@)[g as int].item.voices == views(
                    self.engine_state.groups@[g as int].item.voices@,
                ));
                (
                    self.engine_state.groups[g].item.voices[v].item.tempo,
                    self.engine_state.groups[g].item.voices[v].item.proc_tempi.len(),
                )
            },
            _ => {
                assert(false);
                return Err(CmdErr::TempoFormatting);
            },
        };
        let ghost voice = voice_at(m, idx);
        assert(voice.tempo == own && voice.proc_tempi.len() == tempi);
        let mut tempo = TempoRepr::new(tempi);
        let mut period: usize = 4;
        let mut steps: Vec<Fixed> = Vec::new();
        let mut chance: Vec<Fixed> = Vec::new();
        let mut jit: Vec<Fixed> = Vec::new();
        let ghost start = SeqOpts {
            tempo,
            period,
            steps: Seq::empty(),
            chance: Seq::empty(),
            jit: Seq::empty(),
        };
        let mut i: usize = 1;
        while i < w.len()
            invariant
                1 <= i,
                m == self.engine_state@,
                *self == *old(self),
                lines(w@) == spec_words(args@),
                w.len() > 0,
                spec_find_voice(m, w@[0]@) == Ok::<Idx, CmdErrView>(idx),
                voice == voice_at(m, idx),
                voice.tempo == own,
                voice.proc_tempi.len() == tempi,
                steps.len() == chance.len(),
                start == (SeqOpts {
                    tempo: TempoRepr::spec_new(voice.proc_tempi.len() as usize),
                    period: 4,
                    steps: Seq::empty(),
                    chance: Seq::empty(),
                    jit: Seq::empty(),
                }),
                spec_seq_opts(
                    m,
                    voice,
                    lines(w@),
                    i as int,
                    SeqOpts { tempo, period, steps: steps@, chance: chance@, jit: jit@ },
                ) == spec_seq_opts(m, voice, lines(w@), 1, start),
            decreases w.len() - i,
        {
            assert(lines(w@)[i as int] == w@[i as int]@);
            if i + 1 < w.len() {
                assert(lines(w@)[i + 1] == w@[i + 1]@);
            }
            if is_word(&w[i], "-t") || is_word(&w[i], "--tempo") {
                if i + 1 >= w.len() {
                    return Err(CmdErr::missing("unit:interval", "seq -t"));
                }
                match self.tempo_spec(
                    &w[i + 1],
                    TempoMode::Process,
                    tempi,
                    "seq -t",
                    true,
                    Some(own),
                ) {
                    Ok(t) => {
                        tempo = t;
                    },
                    Err(e) => {
                        return Err(e);
                    },
                }
            } else if is_word(&w[i], "-p") || is_word(&w[i], "--period") {
                if i + 1 >= w.len() {
                    return Err(CmdErr::missing("value", "seq -p"));
                }
                match parse_usize(&w[i + 1]) {
                    Some(p) => {
                        period = p;
                    },
                    None => {
                        return Err(CmdErr::invalid(&w[i + 1], "seq -p"));
                    },
                }
            } else if is_word(&w[i], "-s") || is_word(&w[i], "--steps") {
                if i + 1 >= w.len() {
                    return Err(CmdErr::missing("value", "seq -s"));
                }
                let pieces = split(&w[i + 1], ',');
                match numbers(&pieces, &mut steps) {
                    Ok(()) => {},
                    Err(e) => {
                        return Err(e);
                    },
                }
                resize(&mut chance, steps.len(), Fixed { raw: 6553600 });
                resize(&mut jit, steps.len(), Fixed { raw: 6553600 });
            } else if is_word(&w[i], "-c") || is_word(&w[i], "--chance") {
                if steps.len() < 1 {
                    return Err(
                        CmdErr::formatting(
                            "Must provide arguments to -s/--steps before -c/--chance or -j/--jitter",
                        ),
                    );
                }
                if i + 1 >= w.len() {
                    return Err(CmdErr::missing("value", "seq -c"));
                }
                let toks = split(&w[i + 1], ',');
                match chances(&steps, &mut chance, &toks) {
                    Ok(()) => {},
                    Err(e) => {
                        return Err(e);
                    },
                }
            } else if is_word(&w[i], "-j") || is_word(&w[i], "--jitter") {
                if steps.len() < 1 {
                    return Err(
                        CmdErr::formatting(
                            "Must provide arguments to -s/--steps before -c/--chance or -j/--jitter",
                        ),
                    );
                }
                if i + 1 >= w.len() {
                    return Err(CmdErr::missing("value", "seq -j"));
                }
            } else {
                return Err(CmdErr::invalid(&w[i], "seq"));
            }
            i += 2;
        }
        match idx {
            Idx::Voice(v) => {
                let ghost before = self.engine_state.voices@;
                attach(&mut self.engine_state.voices[v], &tempo);
                assert(views(self.engine_state.voices@) =~= views(before).update(
                    v as int,
                    NamedView { name: views(before)[v as int].name, item: attached(voice, tempo) },
                ));
            },
            Idx::Member(g, v) => {
                let ghost groups_before = self.engine_state.groups@;
                let ghost before = self.engine_state.groups@[g as int].item.voices@;
                assert(views(groups_before)[g as int].item.voices == views(before));
                attach(&mut self.engine_state.groups[g].item.voices[v], &tempo);
                proof {
                    let after = self.engine_state.groups@[g as int].item.voices@;
                    assert(views(after) =~= views(before).update(
                        v as int,
                        NamedView {
                            name: views(before)[v as int].name,
                            item: attached(voice, tempo),
                        },
                    ));
                    assert(views(self.engine_state.groups@) =~= views(groups_before).update(
                        g as int,
                        self.engine_state.groups@[g as int]@,
                    ));
                }
            },
            _ => {},
        }
        Ok(
            Command::Sequencer(
                SeqArgs { idx, tempo, period, steps, chance, jit, rng: X128P::new(seed) },
            ),
        )
    }

    /// Reads one command line. `seed` is what a new sequencer's random
    /// numbers start from. The result and the mirror after it are what the
    /// command language says; an error leaves the mirror as it was; and a
    /// mirror that was in order stays in order.
    pub fn parse(&mut self, cmd: &str, seed: u64) -> (r: Result<Command, CmdErr>)
        ensures
            agrees(
                r,
                old(self).engine_state@,
                final(self).engine_state@,
                spec_parse(old(self).engine_state@, cmd@, seed),
            ),
            old(self).engine_state@.wf() ==> final(self).engine_state@.wf(),
    {
        let line = chars_of(cmd);
        let cut = find_from(&line, 0, ' ');
        assert(line@.skip(0) =~= line@);
        let verb = copy_range(&line, 0, cut);
        assert(verb@ =~= verb_of(cmd@));
        let args = if cut < line.len() {
            copy_range(&line, cut + 1, line.len())
        } else {
            Vec::new()
        };
        assert(args@ =~= args_of(cmd@));
        let r = if is_word(&verb, "load") {
            self.try_load(&args)
        } else if is_word(&verb, "start") {
            self.try_start(&args)
        } else if is_word(&verb, "pause") {
            self.try_pause(&args)
        } else if is_word(&verb, "resume") {
            self.try_resume(&args)
        } else if is_word(&verb, "stop") {
            self.try_stop(&args)
        } else if is_word(&verb, "unload") {
            self.try_unload(&args)
        } else if is_word(&verb, "velocity") {
            self.try_velocity(&args)
        } else if is_word(&verb, "group") {
            self.try_group(&args)
        } else if is_word(&verb, "tc") || is_word(&verb, "tempocon") {
            self.try_tc(&args)
        } else if is_word(&verb, "seq") {
            self.try_seq(&args, seed)
        } else if is_word(&verb, "q") || is_word(&verb, "quit") {
            Ok(Command::Quit(QuitArgs {  }))
        } else {
            Err(CmdErr::no_cmd(&verb))
        };
        proof {
            if old(self).engine_state@.wf() {
                lemma_parse_wf(
                    old(self).engine_state@,
                    cmd@,
                    seed,
                );
                lemma_view_bounded(self.engine_state);
            }
        }
        r
    }

    /// Finds the places at the top level of the voices called `names`.
    pub fn resolve(&self, names: &Vec<Vec<char>>) -> (r: Result<Vec<usize>, CmdErr>)
        ensures
            match r {
                Ok(ids) => spec_resolve(
                    self.engine_state@.voices,
                    lines(names@),
                    0,
                    Seq::empty(),
                ) == Ok::<Seq<usize>, CmdErrView>(ids@) && distinct_in(
                    ids@,
                    self.engine_state@.voices.len(),
                ),
                Err(e) => spec_resolve(self.engine_state@.voices, lines(names@), 0, Seq::empty())
                    == Err::<Seq<usize>, CmdErrView>(e@),
            },
    {
        let ghost voices = self.engine_state@.voices;
        let mut ids: Vec<usize> = Vec::new();
        let mut k: usize = 0;
        while k < names.len()
            invariant
                k <= names.len(),
                voices == self.engine_state@.voices,
                distinct_in(ids@, voices.len()),
                spec_resolve(voices, lines(names@), k as int, ids@) == spec_resolve(
                    voices,
                    lines(names@),
                    0,
                    Seq::empty(),
                ),
            decreases names.len() - k,
        {
            assert(lines(names@)[k as int] == names@[k as int]@);
            match find(&self.engine_state.voices, &names[k]) {
                None => {
                    return Err(CmdErr::no_voice(&names[k]));
                },
                Some(place) => {
                    if holds(&ids, place) {
                        return Err(CmdErr::no_voice(&names[k]));
                    }
                    ids.push(place);
                },
            }
            k += 1;
        }
        Ok(ids)
    }
}

/// Makes a voice of the top level a member, at `slot`, of a group with
/// `tempo`, and says whether it takes the group's tempo and which of its
/// processes do.
pub fn join(entry: &mut Named<VoiceRepr>, slot: usize, tempo: &TempoRepr) -> (r: (
    bool,
    Vec<usize>,
))
    ensures
        final(entry)@ == member(old(entry)@, slot as int, *tempo),
        r.0 == adopts(old(entry)@.item),
        r.1@ == move_of(old(entry)@.item, 0).procs,
{
    let ghost before = entry@;
    entry.item.idx = slot;
    let mut procs: Vec<usize> = Vec::new();
    if entry.item.tempo.mode != TempoMode::TBD {
        return (false, procs);
    }
    entry.item.tempo = TempoRepr::clone_owner(tempo);
    let mut k: usize = 0;
    while k < entry.item.processes.len()
        invariant
            k <= entry.item.processes.len(),
            entry.item.processes.len() == before.item.processes.len(),
            entry.name == old(entry).name,
            entry.item.idx == slot,
            entry.item.tempo == TempoRepr::spec_clone_owner(*tempo),
            entry.item.proc_tempi == old(entry).item.proc_tempi,
            before == old(entry)@,
            procs@ == following(before.item.processes.take(k as int)),
            forall|j: int| 0 <= j < k ==> (#[trigger] entry.item.processes@[j]) == rebound(
                before.item.processes[j],
                *tempo,
            ),
            forall|j: int| k <= j < entry.item.processes.len() ==> (
            #[trigger] entry.item.processes@[j]) == before.item.processes[j],
        decreases entry.item.processes.len() - k,
    {
        let p = entry.item.processes[k];
        let goes = match p.tempo {
            Some(t) => t.mode == TempoMode::TBD,
            None => false,
        };
        proof {
            let s = before.item.processes.take(k + 1);
            assert(s.drop_last() =~= before.item.processes.take(k as int));
            assert(s.last() == p);
        }
        if goes {
            entry.item.processes[k] = ProcRepr {
                idx: p.idx,
                tempo: Some(TempoRepr::clone_owner(tempo)),
            };
            procs.push(p.idx);
        }
        k += 1;
    }
    proof {
        assert(before.item.processes.take(k as int) =~= before.item.processes);
        assert(entry@.item.processes =~= Seq::new(
            before.item.processes.len(),
            |k: int| rebound(before.item.processes[k], *tempo),
        ));
    }
    (true, procs)
}

/// Gives a voice one more process, of tempo `tempo`.
pub fn attach(entry: &mut Named<VoiceRepr>, tempo: &TempoRepr)
    ensures
        final(entry)@ == (NamedView {
            name: old(entry)@.name,
            item: attached(old(entry)@.item, *tempo),
        }),
{
    let at = entry.item.processes.len();
    entry.item.processes.push(ProcRepr::new(at, Some(TempoRepr::clone(tempo))));
    if tempo.mode == TempoMode::Process {
        entry.item.proc_tempi.push(TempoRepr::clone(tempo));
    }
}

/// Reads the numbers that `pieces` write and puts them behind `acc`.
pub fn numbers(pieces: &Vec<Vec<char>>, acc: &mut Vec<Fixed>) -> (r: Result<(), CmdErr>)
    ensures
        match r {
            Ok(_) => spec_numbers(lines(pieces@), 0, old(acc)@) == Ok::<Seq<Fixed>, CmdErrView>(
                final(acc)@,
            ),
            Err(e) => spec_numbers(lines(pieces@), 0, old(acc)@) == Err::<Seq<Fixed>, CmdErrView>(
                e@,
            ),
        },
{
    let mut k: usize = 0;
    while k < pieces.len()
        invariant
            k <= pieces.len(),
            spec_numbers(lines(pieces@), k as int, acc@) == spec_numbers(
                lines(pieces@),
                0,
                old(acc)@,
            ),
        decreases pieces.len() - k,
    {
        assert(lines(pieces@)[k as int] == pieces@[k as int]@);
        match parse_fixed(&pieces[k]) {
            Some(x) => {
                acc.push(x);
            },
            None => {
                return Err(CmdErr::invalid(&pieces[k], "seq -s"));
            },
        }
        k += 1;
    }
    Ok(())
}

/// Brings `v` to the length `n`, filling with `fill`.
pub fn resize(v: &mut Vec<Fixed>, n: usize, fill: Fixed)
    ensures
        final(v)@ == resized(old(v)@, n as nat, fill),
{
    if v.len() > n {
        v.truncate(n);
        assert(v@ =~= resized(old(v)@, n as nat, fill));
        return;
    }
    while v.len() < n
        invariant
            old(v)@.len() <= v.len() <= n,
            v@ == resized(old(v)@, v@.len(), fill),
        decreases n - v.len(),
    {
        let ghost before = v@;
        v.push(fill);
        assert(v@ =~= resized(old(v)@, v@.len(), fill));
    }
}

/// Index of the first of `_`, `:` and `-` in `tok`, or its length.
pub fn special_at(tok: &Vec<char>) -> (r: usize)
    ensures
        r == first_special(tok@),
        r <= tok.len(),
{
    let mut i: usize = 0;
    while i < tok.len() && !(tok[i] == '_' || tok[i] == ':' || tok[i] == '-')
        invariant
            i <= tok.len(),
            forall|j: int| 0 <= j < i ==> !is_special(tok@[j]),
        decreases tok.len() - i,
    {
        i += 1;
    }
    proof {
        lemma_first_special(tok@, i as int);
    }
    i
}

/// A special character with none before it, or the end of a token that has
/// none, is what `first_special` finds.
pub proof fn lemma_first_special(tok: Seq<char>, n: int)
    requires
        0 <= n <= tok.len(),
        forall|j: int| 0 <= j < n ==> !is_special(tok[j]),
        n == tok.len() || is_special(tok[n]),
    ensures
        first_special(tok) == n,
    decreases tok.len(),
{
    if tok.len() == 0 || is_special(tok[0]) {
    } else {
        lemma_first_special(tok.skip(1), n - 1);
    }
}

/// Index of the first step equal to `x`, or the number of steps.
pub fn step_at(steps: &Vec<Fixed>, x: Fixed) -> (r: usize)
    ensures
        r == step_index(steps@, x),
        r <= steps.len(),
{
    let mut i: usize = 0;
    while i < steps.len() && steps[i].raw != x.raw
        invariant
            i <= steps.len(),
            forall|j: int| 0 <= j < i ==> steps@[j] != x,
        decreases steps.len() - i,
    {
        i += 1;
    }
    proof {
        lemma_step_index(steps@, x, i as int);
    }
    i
}

/// A step equal to `x` with none before it, or the end of the steps where
/// none is, is what `step_index` finds.
pub proof fn lemma_step_index(steps: Seq<Fixed>, x: Fixed, n: int)
    requires
        0 <= n <= steps.len(),
        forall|j: int| 0 <= j < n ==> steps[j] != x,
        n == steps.len() || steps[n] == x,
    ensures
        step_index(steps, x) == n,
    decreases steps.len(),
{
    if steps.len() == 0 || steps[0] == x {
    } else {
        lemma_step_index(steps.skip(1), x, n - 1);
    }
}

/// Whether `r` and the chances after it are what `s` says.
pub open spec fn chance_agrees(
    r: Result<(), CmdErr>,
    before: Seq<Fixed>,
    after: Seq<Fixed>,
    s: Result<Seq<Fixed>, CmdErrView>,
) -> bool {
    match r {
        Ok(_) => s == Ok::<Seq<Fixed>, CmdErrView>(after) && after.len() == before.len(),
        Err(e) => s == Err::<Seq<Fixed>, CmdErrView>(e@),
    }
}

/// Sets every chance to `value`.
pub fn set_all(chance: &mut Vec<Fixed>, value: Fixed)
    ensures
        final(chance)@ == Seq::new(old(chance)@.len(), |j: int| value),
{
    let mut j: usize = 0;
    while j < chance.len()
        invariant
            j <= chance.len(),
            chance.len() == old(chance).len(),
            forall|k: int| 0 <= k < j ==> chance@[k] == value,
        decreases chance.len() - j,
    {
        chance[j] = value;
        j += 1;
    }
    assert(chance@ =~= Seq::new(old(chance)@.len(), |j: int| value));
}

/// Sets the chance of every step from `lo` to `hi` to `value`.
pub fn fill_range(steps: &Vec<Fixed>, chance: &mut Vec<Fixed>, lo: Fixed, hi: Fixed, value: Fixed)
    ensures
        final(chance)@ == set_range(steps@, old(chance)@, lo, hi, value),
{
    let mut j: usize = 0;
    while j < chance.len()
        invariant
            j <= chance.len(),
            chance.len() == old(chance).len(),
            forall|k: int|
                0 <= k < j ==> chance@[k] == set_range(steps@, old(chance)@, lo, hi, value)[k],
            forall|k: int| j <= k < chance.len() ==> chance@[k] == old(chance)@[k],
        decreases chance.len() - j,
    {
        if j < steps.len() && lo.raw <= steps[j].raw && steps[j].raw <= hi.raw {
            chance[j] = value;
        }
        j += 1;
    }
    assert(chance@ =~= set_range(steps@, old(chance)@, lo, hi, value));
}

/// Applies a token of the form `beat:value` or `a:value`.
pub fn chance_at(steps: &Vec<Fixed>, chance: &mut Vec<Fixed>, tok: &Vec<char>) -> (r: Result<
    (),
    CmdErr,
>)
    ensures
        chance_agrees(r, old(chance)@, final(chance)@, spec_chance_at(steps@, old(chance)@, tok@)),
{
    let parts = split(tok, ':');
    if parts.len() != 2 {
        return Err(CmdErr::formatting("Indexed chance arguments must be formatted beat:chance"));
    }
    assert(lines(parts@)[0] == parts@[0]@);
    assert(lines(parts@)[1] == parts@[1]@);
    let value = match parse_fixed(&parts[1]) {
        Some(v) => v,
        None => {
            return Err(CmdErr::invalid(&parts[1], "seq -c"));
        },
    };
    if is_word(&parts[0], "a") {
        set_all(chance, value);
        return Ok(());
    }
    let beat = match parse_fixed(&parts[0]) {
        Some(b) => b,
        None => {
            return Err(CmdErr::invalid(&parts[0], "seq -c"));
        },
    };
    let at = step_at(steps, beat);
    if at >= steps.len() || at >= chance.len() {
        return Err(CmdErr::formatting("Invalid index for seq -c"));
    }
    chance[at] = value;
    Ok(())
}

/// Applies a token of the form `lower-upper:value`.
pub fn chance_range(steps: &Vec<Fixed>, chance: &mut Vec<Fixed>, tok: &Vec<char>) -> (r: Result<
    (),
    CmdErr,
>)
    ensures
        chance_agrees(
            r,
            old(chance)@,
            final(chance)@,
            spec_chance_range(steps@, old(chance)@, tok@),
        ),
{
    let parts = split(tok, ':');
    if parts.len() != 2 {
        return Err(CmdErr::formatting("Ranged chance arguments must be formatted range:chance"));
    }
    assert(lines(parts@)[0] == parts@[0]@);
    assert(lines(parts@)[1] == parts@[1]@);
    let value = match parse_fixed(&parts[1]) {
        Some(v) => v,
        None => {
            return Err(CmdErr::invalid(&parts[1], "seq -c"));
        },
    };
    let bounds = split(&parts[0], '-');
    if bounds.len() != 2 {
        return Err(CmdErr::formatting("Ranges must be formatted lower-upper"));
    }
    assert(lines(bounds@)[0] == bounds@[0]@);
    assert(lines(bounds@)[1] == bounds@[1]@);
    let a = match parse_fixed(&bounds[0]) {
        Some(x) => x,
        None => {
            return Err(CmdErr::invalid(&bounds[0], "seq -c"));
        },
    };
    let b = match parse_fixed(&bounds[1]) {
        Some(x) => x,
        None => {
            return Err(CmdErr::invalid(&bounds[1], "seq -c"));
        },
    };
    let lo = if a.raw > b.raw { b } else { a };
    let hi = if a.raw > b.raw { a } else { b };
    if steps.len() == 0 || lo.raw > steps[steps.len() - 1].raw {
        return Err(CmdErr::formatting("seq -c range applies to nothing"));
    }
    fill_range(steps, chance, lo, hi, value);
    Ok(())
}

/// Applies the `i`-th token of `-c`.
pub fn chance_token(steps: &Vec<Fixed>, chance: &mut Vec<Fixed>, tok: &Vec<char>, i: usize) -> (r:
    Result<(), CmdErr>)
    requires
        i < old(chance).len(),
    ensures
        chance_agrees(
            r,
            old(chance)@,
            final(chance)@,
            spec_chance_token(steps@, old(chance)@, tok@, i as int),
        ),
{
    let at = special_at(tok);
    if at >= tok.len() {
        return match parse_fixed(tok) {
            Some(value) => {
                chance[i] = value;
                Ok(())
            },
            None => Err(CmdErr::invalid(tok, "seq -c")),
        };
    }
    if tok[at] == '_' {
        chance[i] = Fixed { raw: 6553600 };
        Ok(())
    } else if tok[at] == ':' {
        chance_at(steps, chance, tok)
    } else {
        chance_range(steps, chance, tok)
    }
}

/// Applies the tokens of `-c`.
pub fn chances(steps: &Vec<Fixed>, chance: &mut Vec<Fixed>, toks: &Vec<Vec<char>>) -> (r: Result<
    (),
    CmdErr,
>)
    ensures
        chance_agrees(
            r,
            old(chance)@,
            final(chance)@,
            spec_chances(steps@, old(chance)@, lines(toks@), 0),
        ),
{
    let mut i: usize = 0;
    while i < toks.len() && i < chance.len()
        invariant
            i <= toks.len(),
            chance.len() == old(chance).len(),
            spec_chances(steps@, chance@, lines(toks@), i as int) == spec_chances(
                steps@,
                old(chance)@,
                lines(toks@),
                0,
            ),
        decreases toks.len() - i,
    {
        assert(lines(toks@)[i as int] == toks@[i as int]@);
        match chance_token(steps, chance, &toks[i], i) {
            Ok(()) => {},
            Err(e) => {
                return Err(e);
            },
        }
        i += 1;
    }
    Ok(())
}

/// The unit that a letter stands for.
pub fn unit_of(s: &Vec<char>) -> (r: Option<TempoUnit>)
    ensures
        r == spec_unit(s@),
{
    if is_word(s, "s") {
        Some(TempoUnit::Samples)
    } else if is_word(s, "m") {
        Some(TempoUnit::Millis)
    } else if is_word(s, "b") {
        Some(TempoUnit::Bpm)
    } else {
        None
    }
}

} // verus!
