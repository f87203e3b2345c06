//! The command language, stated over sequences of characters: for each
//! command, what a line gives and how the mirror changes.
//!
//! A line is a verb, a blank, and the verb's arguments. Every function here
//! is a spec function; the parser is proved against them.

use vstd::prelude::*;
use crate::audio_processing::blast_rand::X128P;
use crate::audio_processing::blast_time::{TempoMode, TempoUnit};
use crate::audio_processing::commands::{CmdErrView, CommandView, Idx, MoveView, TempoRepr};
use crate::audio_processing::fixed::Fixed;
use crate::audio_processing::lists::{places_among, position_of, reversed, without};
use crate::audio_processing::mirror::{
    GroupView,
    MirrorView,
    NamedView,
    ProcRepr,
    VoiceView,
    has_name,
    index_of,
    renumbered,
};
use crate::audio_processing::text::{
    first_index,
    spec_parse_fixed,
    spec_parse_usize,
    spec_split,
    spec_words,
};

verus! {

/// What a command line comes to: a command and the mirror after it, or an
/// error, with the mirror as it was.
pub enum Outcome {
    Done { cmd: CommandView, mirror: MirrorView },
    Failed { err: CmdErrView },
}

/// The error for an argument that is not there.
pub open spec fn missing(arg: Seq<char>, cmd: Seq<char>) -> CmdErrView {
    CmdErrView::MissingArg { arg, cmd }
}

/// The error for an argument that cannot be read.
pub open spec fn invalid(arg: Seq<char>, cmd: Seq<char>) -> CmdErrView {
    CmdErrView::InvalidArg { arg, cmd }
}

/// The error for a name that nothing of the kind `ty` has.
pub open spec fn no_item(ty: Seq<char>, name: Seq<char>) -> CmdErrView {
    CmdErrView::NoItem { ty, name }
}

/// The place of the entry called `name` in `s`, a list of things of the kind
/// `ty`.
pub open spec fn spec_find_item<V>(s: Seq<NamedView<V>>, ty: Seq<char>, name: Seq<char>) -> Result<
    usize,
    CmdErrView,
> {
    if has_name(s, name) {
        Ok(index_of(s, name) as usize)
    } else {
        Err(no_item(ty, name))
    }
}

/// The voice that `name` means: a voice of the top level, or, written
/// `group.voice`, a voice of a group.
pub open spec fn spec_find_voice(m: MirrorView, name: Seq<char>) -> Result<Idx, CmdErrView> {
    let parts = spec_split(name, '.');
    if parts.len() > 2 {
        Err(CmdErrView::Formatting { err: "Too many delimiters for format group.voice"@ })
    } else if parts.len() == 1 {
        if has_name(m.voices, parts[0]) {
            Ok(Idx::Voice(index_of(m.voices, parts[0]) as usize))
        } else {
            Err(CmdErrView::NoVoice { name: parts[0], group: None })
        }
    } else if !has_name(m.groups, parts[0]) {
        Err(no_item("Group"@, parts[0]))
    } else {
        let g = index_of(m.groups, parts[0]);
        let voices = m.groups[g as int].item.voices;
        if has_name(voices, parts[1]) {
            Ok(Idx::Member(g as usize, index_of(voices, parts[1]) as usize))
        } else {
            Err(CmdErrView::NoVoice { name: parts[1], group: Some(parts[0]) })
        }
    }
}

/// The voice at `at`.
pub open spec fn voice_at(m: MirrorView, at: Idx) -> VoiceView {
    match at {
        Idx::Member(g, v) => m.groups[g as int].item.voices[v as int].item,
        Idx::Voice(v) => m.voices[v as int].item,
        _ => m.voices[0].item,
    }
}

/// The mirror with `voice` in the place `at`.
pub open spec fn with_voice(m: MirrorView, at: Idx, voice: VoiceView) -> MirrorView {
    match at {
        Idx::Member(g, v) => {
            let group = m.groups[g as int];
            let old = group.item.voices[v as int];
            MirrorView {
                groups: m.groups.update(
                    g as int,
                    NamedView {
                        name: group.name,
                        item: GroupView {
                            voices: group.item.voices.update(
                                v as int,
                                NamedView { name: old.name, item: voice },
                            ),
                            ..group.item
                        },
                    },
                ),
                ..m
            }
        },
        Idx::Voice(v) => MirrorView {
            voices: m.voices.update(v as int, NamedView { name: m.voices[v as int].name, item: voice }),
            ..m
        },
        _ => m,
    }
}

/// What the flag `ty` and `name` address.
pub open spec fn spec_get_idx(m: MirrorView, ty: Seq<char>, name: Seq<char>) -> Result<
    Idx,
    CmdErrView,
> {
    if ty == "-v"@ || ty == "--voice"@ {
        spec_find_voice(m, name)
    } else if ty == "-g"@ || ty == "--group"@ {
        if has_name(m.groups, name) {
            Ok(Idx::Group(index_of(m.groups, name) as usize))
        } else {
            Err(no_item("Group"@, name))
        }
    } else if ty == "-t"@ || ty == "--tempocontext"@ {
        if has_name(m.tempo_cons, name) {
            Ok(Idx::Tempo(index_of(m.tempo_cons, name) as usize))
        } else {
            Err(no_item("TempoContext"@, name))
        }
    } else {
        Err(missing("type"@, "-v/-g/-t"@))
    }
}

/// What `start`, `pause`, `resume` and `stop` address: a flag and a name.
pub open spec fn spec_target(m: MirrorView, args: Seq<char>, cmd: Seq<char>) -> Result<
    Idx,
    CmdErrView,
> {
    let w = spec_words(args);
    if w.len() == 0 {
        Err(missing("type and name"@, cmd))
    } else if w.len() == 1 {
        Err(missing("type or name"@, cmd))
    } else {
        spec_get_idx(m, w[0], w[1])
    }
}

/// The unit that a letter stands for.
pub open spec fn spec_unit(s: Seq<char>) -> Option<TempoUnit> {
    if s == "s"@ {
        Some(TempoUnit::Samples)
    } else if s == "m"@ {
        Some(TempoUnit::Millis)
    } else if s == "b"@ {
        Some(TempoUnit::Bpm)
    } else {
        None
    }
}

/// What a tempo may refer to, and what a new one is like.
pub struct TempoRules {
    /// Mode of a tempo that the command makes.
    pub mode: TempoMode,
    /// `idx` of a tempo that the command makes.
    pub idx: usize,
    /// The command's name in errors.
    pub label: Seq<char>,
    /// Whether `g:name` is accepted.
    pub groups: bool,
    /// The tempo that `v` stands for, where it is accepted.
    pub voice: Option<TempoRepr>,
}

/// The tempo that the argument of `-t` asks for: `s:`, `m:` or `b:` and a
/// positive number for a new tempo, `c:name` for that of a context,
/// `g:name` for that of a group, `v` for that of the voice.
pub open spec fn spec_tempo(m: MirrorView, tok: Seq<char>, rules: TempoRules) -> Result<
    TempoRepr,
    CmdErrView,
> {
    let parts = spec_split(tok, ':');
    if rules.voice.is_some() && parts[0] == "v"@ && parts.len() <= 2 {
        Ok(TempoRepr::spec_clone_owner(rules.voice.unwrap()))
    } else if parts.len() != 2 {
        Err(CmdErrView::TempoFormatting)
    } else if parts[0] == "c"@ {
        if has_name(m.tempo_cons, parts[1]) {
            Ok(
                TempoRepr::spec_clone_owner(
                    m.tempo_cons[index_of(m.tempo_cons, parts[1]) as int].item,
                ),
            )
        } else {
            Err(no_item("TempoContext"@, parts[1]))
        }
    } else if rules.groups && parts[0] == "g"@ {
        if has_name(m.groups, parts[1]) {
            Ok(TempoRepr::spec_clone_owner(m.groups[index_of(m.groups, parts[1]) as int].item.tempo))
        } else {
            Err(no_item("Group"@, parts[1]))
        }
    } else {
        match spec_unit(parts[0]) {
            None => Err(invalid(parts[0], rules.label)),
            Some(unit) => match spec_parse_fixed(parts[1]) {
                None => Err(invalid(parts[1], rules.label)),
                Some(interval) => if interval.raw <= 0 {
                    Err(invalid(parts[1], rules.label))
                } else {
                    Ok(
                        TempoRepr {
                            idx: rules.idx,
                            owned: true,
                            mode: rules.mode,
                            unit,
                            interval,
                        },
                    )
                },
            },
        }
    }
}

/// What `-t` means in `load`.
pub open spec fn load_rules() -> TempoRules {
    TempoRules { mode: TempoMode::Voice, idx: 0, label: "load -t"@, groups: true, voice: None }
}

/// The tempo that the options of `load` from the `i`-th word on leave,
/// starting from `tempo`.
pub open spec fn spec_load_opts(m: MirrorView, w: Seq<Seq<char>>, i: int, tempo: TempoRepr)
    -> Result<TempoRepr, CmdErrView>
    decreases w.len() - i,
{
    if i >= w.len() || i < 0 {
        Ok(tempo)
    } else if w[i] == "-t"@ || w[i] == "--tempo"@ {
        if i + 1 >= w.len() {
            Err(missing("unit"@, "load -t/--tempo"@))
        } else {
            match spec_tempo(m, w[i + 1], load_rules()) {
                Err(e) => Err(e),
                Ok(t) => spec_load_opts(m, w, i + 2, t),
            }
        }
    } else {
        Err(invalid(w[i], "load"@))
    }
}

/// `load <name> [-t <tempo>]`: a new voice of the track of that name, last
/// at the top level.
pub open spec fn spec_try_load(m: MirrorView, args: Seq<char>) -> Outcome {
    let w = spec_words(args);
    if w.len() == 0 {
        Outcome::Failed { err: missing("name"@, "load"@) }
    } else if !has_name(m.tracks, w[0]) {
        Outcome::Failed { err: no_item("track"@, w[0]) }
    } else if has_name(m.voices, w[0]) || spec_find_voice(m, w[0]).is_ok() {
        Outcome::Failed { err: CmdErrView::AlreadyIs { ty: "Voice"@, name: w[0] } }
    } else {
        match spec_load_opts(m, w, 1, TempoRepr::spec_new(0)) {
            Err(err) => Outcome::Failed { err },
            Ok(tempo) => Outcome::Done {
                cmd: CommandView::Load {
                    track_idx: m.tracks[index_of(m.tracks, w[0]) as int].item.idx,
                    tempo,
                },
                mirror: MirrorView {
                    voices: m.voices.push(
                        NamedView {
                            name: w[0],
                            item: VoiceView {
                                idx: m.voices.len() as usize,
                                tempo,
                                processes: Seq::empty(),
                                proc_tempi: Seq::empty(),
                            },
                        },
                    ),
                    ..m
                },
            },
        }
    }
}

/// `start -v|-g|-t <name>`.
pub open spec fn spec_try_start(m: MirrorView, args: Seq<char>) -> Outcome {
    match spec_target(m, args, "start"@) {
        Err(err) => Outcome::Failed { err },
        Ok(idx) => Outcome::Done { cmd: CommandView::Start { idx }, mirror: m },
    }
}

/// `pause -v|-g|-t <name>`.
pub open spec fn spec_try_pause(m: MirrorView, args: Seq<char>) -> Outcome {
    match spec_target(m, args, "pause"@) {
        Err(err) => Outcome::Failed { err },
        Ok(idx) => Outcome::Done { cmd: CommandView::Pause { idx }, mirror: m },
    }
}

/// `resume -v|-g|-t <name>`.
pub open spec fn spec_try_resume(m: MirrorView, args: Seq<char>) -> Outcome {
    match spec_target(m, args, "resume"@) {
        Err(err) => Outcome::Failed { err },
        Ok(idx) => Outcome::Done { cmd: CommandView::Resume { idx }, mirror: m },
    }
}

/// `stop -v|-g|-t <name>`.
pub open spec fn spec_try_stop(m: MirrorView, args: Seq<char>) -> Outcome {
    match spec_target(m, args, "stop"@) {
        Err(err) => Outcome::Failed { err },
        Ok(idx) => Outcome::Done { cmd: CommandView::Stop { idx }, mirror: m },
    }
}

/// `unload <name>`: the voice of that name leaves the top level and the
/// voices behind it move up.
pub open spec fn spec_try_unload(m: MirrorView, name: Seq<char>) -> Outcome {
    if !has_name(m.voices, name) {
        Outcome::Failed { err: CmdErrView::NoVoice { name, group: None } }
    } else {
        let at = index_of(m.voices, name);
        Outcome::Done {
            cmd: CommandView::Unload { place: at as usize },
            mirror: MirrorView { voices: renumbered(m.voices.remove(at as int)), ..m },
        }
    }
}

/// `velocity <name> <value>`.
pub open spec fn spec_try_velocity(m: MirrorView, args: Seq<char>) -> Outcome {
    let cut = first_index(args, ' ');
    match spec_find_voice(m, args.take(cut as int)) {
        Err(err) => Outcome::Failed { err },
        Ok(idx) => if cut >= args.len() {
            Outcome::Failed { err: missing("value"@, "velocity"@) }
        } else {
            match spec_parse_fixed(args.skip(cut as int + 1)) {
                None => Outcome::Failed {
                    err: invalid(args.skip(cut as int + 1), "velocity"@),
                },
                Some(val) => Outcome::Done { cmd: CommandView::Velocity { idx, val }, mirror: m },
            }
        },
    }
}

/// What a tempo means in `tc`.
pub open spec fn tc_rules(m: MirrorView) -> TempoRules {
    TempoRules {
        mode: TempoMode::Context,
        idx: m.tempo_cons.len() as usize,
        label: "-t/--tempo"@,
        groups: false,
        voice: None,
    }
}

/// `tc <name> <unit>:<interval>`: a new tempo context, last in the list.
pub open spec fn spec_try_tc(m: MirrorView, args: Seq<char>) -> Outcome {
    let w = spec_words(args);
    if w.len() == 0 {
        Outcome::Failed { err: missing("name"@, "tempocon"@) }
    } else if w.len() == 1 {
        Outcome::Failed { err: missing("tempo"@, "tempocon"@) }
    } else if has_name(m.tempo_cons, w[0]) {
        Outcome::Failed { err: CmdErrView::AlreadyIs { ty: "TempoContext"@, name: w[0] } }
    } else if spec_split(w[1], ':').len() != 2 {
        Outcome::Failed { err: CmdErrView::TempoFormatting }
    } else if spec_unit(spec_split(w[1], ':')[0]).is_none() {
        Outcome::Failed { err: invalid(spec_split(w[1], ':')[0], "-t/--tempo"@) }
    } else {
        match spec_tempo(m, w[1], tc_rules(m)) {
            Err(err) => Outcome::Failed { err },
            Ok(tempo) => Outcome::Done {
                cmd: CommandView::Tc { tempo },
                mirror: MirrorView {
                    tempo_cons: m.tempo_cons.push(NamedView { name: w[0], item: tempo }),
                    ..m
                },
            },
        }
    }
}

/// The tempo of a group that was given none: 240 beats per minute.
pub open spec fn default_group_tempo(idx: usize) -> TempoRepr {
    TempoRepr {
        idx,
        owned: true,
        mode: TempoMode::Group,
        unit: TempoUnit::Bpm,
        interval: Fixed { raw: 15728640 },
    }
}

/// What `-t` means in `group`.
pub open spec fn group_rules(m: MirrorView) -> TempoRules {
    TempoRules {
        mode: TempoMode::Group,
        idx: m.groups.len() as usize,
        label: "group -t"@,
        groups: false,
        voice: None,
    }
}

/// What the options of `group` ask for: a tempo and the names of voices.
pub struct GroupOpts {
    pub tempo: TempoRepr,
    pub names: Seq<Seq<char>>,
}

/// The options of `group` from the `i`-th word on, starting from `acc`.
pub open spec fn spec_group_opts(m: MirrorView, w: Seq<Seq<char>>, i: int, acc: GroupOpts)
    -> Result<GroupOpts, CmdErrView>
    decreases w.len() - i,
{
    if i >= w.len() || i < 0 {
        Ok(acc)
    } else if w[i] == "-t"@ || w[i] == "--tempo"@ {
        if i + 1 >= w.len() {
            Err(missing("arguments"@, "group -t"@))
        } else {
            match spec_tempo(m, w[i + 1], group_rules(m)) {
                Err(e) => Err(e),
                Ok(tempo) => spec_group_opts(m, w, i + 2, GroupOpts { tempo, ..acc }),
            }
        }
    } else if w[i] == "-v"@ || w[i] == "--voices"@ {
        if i + 1 >= w.len() {
            Err(missing("arguments"@, "group -v"@))
        } else {
            spec_group_opts(
                m,
                w,
                i + 2,
                GroupOpts { names: acc.names + spec_split(w[i + 1], ','), ..acc },
            )
        }
    } else {
        Err(invalid(w[i], "group"@))
    }
}

/// The places at the top level of the voices called `names`, from the
/// `k`-th name on, behind the places `ids` of the names before. A name that
/// no voice has, or that came before, is an error.
pub open spec fn spec_resolve(
    voices: Seq<NamedView<VoiceView>>,
    names: Seq<Seq<char>>,
    k: int,
    ids: Seq<usize>,
) -> Result<Seq<usize>, CmdErrView>
    decreases names.len() - k,
{
    if k >= names.len() || k < 0 {
        Ok(ids)
    } else if !has_name(voices, names[k]) || ids.contains(index_of(voices, names[k]) as usize) {
        Err(CmdErrView::NoVoice { name: names[k], group: None })
    } else {
        spec_resolve(voices, names, k + 1, ids.push(index_of(voices, names[k]) as usize))
    }
}

/// A voice without a tempo of its own takes the tempo of the group that it
/// joins.
pub open spec fn adopts(v: VoiceView) -> bool {
    v.tempo.mode == TempoMode::TBD
}

/// A process whose tempo has no mode goes with its voice.
pub open spec fn follows(p: ProcRepr) -> bool {
    p.tempo.is_some() && p.tempo.unwrap().mode == TempoMode::TBD
}

/// The process, referring to `tempo` where it goes with its voice.
pub open spec fn rebound(p: ProcRepr, tempo: TempoRepr) -> ProcRepr {
    if follows(p) {
        ProcRepr { tempo: Some(TempoRepr::spec_clone_owner(tempo)), ..p }
    } else {
        p
    }
}

/// The places of the processes that go with their voice.
pub open spec fn following(procs: Seq<ProcRepr>) -> Seq<usize>
    decreases procs.len(),
{
    if procs.len() == 0 {
        Seq::empty()
    } else if follows(procs.last()) {
        following(procs.drop_last()).push(procs.last().idx)
    } else {
        following(procs.drop_last())
    }
}

/// The voice as a member, at `slot`, of a group with `tempo`.
pub open spec fn member(v: NamedView<VoiceView>, slot: int, tempo: TempoRepr) -> NamedView<
    VoiceView,
> {
    if adopts(v.item) {
        NamedView {
            name: v.name,
            item: VoiceView {
                idx: slot as usize,
                tempo: TempoRepr::spec_clone_owner(tempo),
                processes: Seq::new(
                    v.item.processes.len(),
                    |k: int| rebound(v.item.processes[k], tempo),
                ),
                proc_tempi: v.item.proc_tempi,
            },
        }
    } else {
        NamedView { name: v.name, item: VoiceView { idx: slot as usize, ..v.item } }
    }
}

/// What the engine is told of a voice that moves from `place` into a group.
pub open spec fn move_of(v: VoiceView, place: usize) -> MoveView {
    MoveView {
        voice: place,
        inherit: adopts(v),
        procs: if adopts(v) {
            following(v.processes)
        } else {
            Seq::empty()
        },
    }
}

/// `group <name> [-t <tempo>] [-v <name>[,<name>...]]`: a new group, last in
/// the list, of the named voices in the order given. They leave the top
/// level, and the voices that stay move up. The engine is told of the voices
/// highest place first, and of the place in that list of each voice of the
/// group.
pub open spec fn spec_try_group(m: MirrorView, args: Seq<char>) -> Outcome {
    let w = spec_words(args);
    if w.len() == 0 {
        Outcome::Failed { err: missing("name"@, "group"@) }
    } else if has_name(m.groups, w[0]) {
        Outcome::Failed { err: CmdErrView::AlreadyIs { ty: "Group"@, name: w[0] } }
    } else {
        let start = GroupOpts {
            tempo: default_group_tempo(m.groups.len() as usize),
            names: Seq::empty(),
        };
        match spec_group_opts(m, w, 1, start) {
            Err(err) => Outcome::Failed { err },
            Ok(opts) => match spec_resolve(m.voices, opts.names, 0, Seq::empty()) {
                Err(err) => Outcome::Failed { err },
                Ok(ids) => {
                    let falling = reversed(places_among(m.voices.len(), ids));
                    Outcome::Done {
                        cmd: CommandView::Group {
                            tempo: opts.tempo,
                            moves: Seq::new(
                                falling.len(),
                                |j: int| move_of(m.voices[falling[j] as int].item, falling[j]),
                            ),
                            order: Seq::new(
                                ids.len(),
                                |i: int| position_of(falling, ids[i]) as usize,
                            ),
                        },
                        mirror: MirrorView {
                            voices: renumbered(without(m.voices, ids)),
                            groups: m.groups.push(
                                NamedView {
                                    name: w[0],
                                    item: GroupView {
                                        idx: m.groups.len() as usize,
                                        tempo: opts.tempo,
                                        voices: Seq::new(
                                            ids.len(),
                                            |k: int| member(m.voices[ids[k] as int], k, opts.tempo),
                                        ),
                                    },
                                },
                            ),
                            ..m
                        },
                    }
                },
            },
        }
    }
}

/// What the options of `seq` ask for.
pub struct SeqOpts {
    pub tempo: TempoRepr,
    pub period: usize,
    pub steps: Seq<Fixed>,
    pub chance: Seq<Fixed>,
    pub jit: Seq<Fixed>,
}

/// The chance of a step that was given none.
pub open spec fn hundred() -> Fixed {
    Fixed { raw: 6553600 }
}

/// `s` brought to the length `n` with `fill`.
pub open spec fn resized(s: Seq<Fixed>, n: nat, fill: Fixed) -> Seq<Fixed> {
    Seq::new(n, |i: int| if i < s.len() { s[i] } else { fill })
}

/// The numbers that `pieces` write from the `k`-th on, behind `acc`.
pub open spec fn spec_numbers(pieces: Seq<Seq<char>>, k: int, acc: Seq<Fixed>) -> Result<
    Seq<Fixed>,
    CmdErrView,
>
    decreases pieces.len() - k,
{
    if k >= pieces.len() || k < 0 {
        Ok(acc)
    } else {
        match spec_parse_fixed(pieces[k]) {
            None => Err(invalid(pieces[k], "seq -s"@)),
            Some(x) => spec_numbers(pieces, k + 1, acc.push(x)),
        }
    }
}

/// The characters that make a chance token more than a number.
pub open spec fn is_special(c: char) -> bool {
    c == '_' || c == ':' || c == '-'
}

/// Index of the first of `_`, `:` and `-` in `tok`, or its length.
pub open spec fn first_special(tok: Seq<char>) -> nat
    decreases tok.len(),
{
    if tok.len() == 0 || is_special(tok[0]) {
        0
    } else {
        1 + first_special(tok.skip(1))
    }
}

/// Index of the first step equal to `x`, or the number of steps.
pub open spec fn step_index(steps: Seq<Fixed>, x: Fixed) -> nat
    decreases steps.len(),
{
    if steps.len() == 0 || steps[0] == x {
        0
    } else {
        1 + step_index(steps.skip(1), x)
    }
}

/// `value` for every step from `lo` to `hi`, both included.
pub open spec fn set_range(
    steps: Seq<Fixed>,
    chance: Seq<Fixed>,
    lo: Fixed,
    hi: Fixed,
    value: Fixed,
) -> Seq<Fixed> {
    Seq::new(
        chance.len(),
        |j: int|
            if j < steps.len() && lo.raw <= steps[j].raw && steps[j].raw <= hi.raw {
                value
            } else {
                chance[j]
            },
    )
}

/// `beat:value` and `a:value`.
pub open spec fn spec_chance_at(steps: Seq<Fixed>, chance: Seq<Fixed>, tok: Seq<char>) -> Result<
    Seq<Fixed>,
    CmdErrView,
> {
    let parts = spec_split(tok, ':');
    if parts.len() != 2 {
        Err(
            CmdErrView::Formatting {
                err: "Indexed chance arguments must be formatted beat:chance"@,
            },
        )
    } else {
        match spec_parse_fixed(parts[1]) {
            None => Err(invalid(parts[1], "seq -c"@)),
            Some(value) => if parts[0] == "a"@ {
                Ok(Seq::new(chance.len(), |j: int| value))
            } else {
                match spec_parse_fixed(parts[0]) {
                    None => Err(invalid(parts[0], "seq -c"@)),
                    Some(beat) => if step_index(steps, beat) >= steps.len() || step_index(
                        steps,
                        beat,
                    ) >= chance.len() {
                        Err(CmdErrView::Formatting { err: "Invalid index for seq -c"@ })
                    } else {
                        Ok(chance.update(step_index(steps, beat) as int, value))
                    },
                }
            },
        }
    }
}

/// `lower-upper:value`.
pub open spec fn spec_chance_range(steps: Seq<Fixed>, chance: Seq<Fixed>, tok: Seq<char>)
    -> Result<Seq<Fixed>, CmdErrView> {
    let parts = spec_split(tok, ':');
    if parts.len() != 2 {
        Err(
            CmdErrView::Formatting {
                err: "Ranged chance arguments must be formatted range:chance"@,
            },
        )
    } else {
        match spec_parse_fixed(parts[1]) {
            None => Err(invalid(parts[1], "seq -c"@)),
            Some(value) => {
                let bounds = spec_split(parts[0], '-');
                if bounds.len() != 2 {
                    Err(CmdErrView::Formatting { err: "Ranges must be formatted lower-upper"@ })
                } else {
                    match spec_parse_fixed(bounds[0]) {
                        None => Err(invalid(bounds[0], "seq -c"@)),
                        Some(a) => match spec_parse_fixed(bounds[1]) {
                            None => Err(invalid(bounds[1], "seq -c"@)),
                            Some(b) => {
                                let lo = if a.raw > b.raw { b } else { a };
                                let hi = if a.raw > b.raw { a } else { b };
                                if steps.len() == 0 || lo.raw > steps.last().raw {
                                    Err(
                                        CmdErrView::Formatting {
                                            err: "seq -c range applies to nothing"@,
                                        },
                                    )
                                } else {
                                    Ok(set_range(steps, chance, lo, hi, value))
                                }
                            },
                        },
                    }
                }
            },
        }
    }
}

/// The chances after the `i`-th token of `-c`. A bare number is the chance of
/// the `i`-th step and `_` makes it 100; `beat:value` is the chance of the
/// first step at that beat, `a:value` that of all steps, and
/// `lower-upper:value` that of the steps in that range.
pub open spec fn spec_chance_token(
    steps: Seq<Fixed>,
    chance: Seq<Fixed>,
    tok: Seq<char>,
    i: int,
) -> Result<Seq<Fixed>, CmdErrView> {
    let at = first_special(tok);
    if at >= tok.len() {
        match spec_parse_fixed(tok) {
            None => Err(invalid(tok, "seq -c"@)),
            Some(value) => Ok(chance.update(i, value)),
        }
    } else if tok[at as int] == '_' {
        Ok(chance.update(i, hundred()))
    } else if tok[at as int] == ':' {
        spec_chance_at(steps, chance, tok)
    } else {
        spec_chance_range(steps, chance, tok)
    }
}

/// The chances after the tokens of `-c` from the `i`-th on. Tokens beyond
/// the number of steps do not count.
pub open spec fn spec_chances(
    steps: Seq<Fixed>,
    chance: Seq<Fixed>,
    toks: Seq<Seq<char>>,
    i: int,
) -> Result<Seq<Fixed>, CmdErrView>
    decreases toks.len() - i,
{
    if i >= toks.len() || i >= chance.len() || i < 0 {
        Ok(chance)
    } else {
        match spec_chance_token(steps, chance, toks[i], i) {
            Err(e) => Err(e),
            Ok(next) => spec_chances(steps, next, toks, i + 1),
        }
    }
}

/// What `-t` means in `seq` for a sequencer of `voice`.
pub open spec fn seq_rules(voice: VoiceView) -> TempoRules {
    TempoRules {
        mode: TempoMode::Process,
        idx: voice.proc_tempi.len() as usize,
        label: "seq -t"@,
        groups: true,
        voice: Some(voice.tempo),
    }
}

/// The error for chances or jitters before any step.
pub open spec fn steps_first() -> CmdErrView {
    CmdErrView::Formatting {
        err: "Must provide arguments to -s/--steps before -c/--chance or -j/--jitter"@,
    }
}

/// The options of `seq` from the `i`-th word on, starting from `acc`.
pub open spec fn spec_seq_opts(
    m: MirrorView,
    voice: VoiceView,
    w: Seq<Seq<char>>,
    i: int,
    acc: SeqOpts,
) -> Result<SeqOpts, CmdErrView>
    decreases w.len() - i,
{
    if i >= w.len() || i < 0 {
        Ok(acc)
    } else if w[i] == "-t"@ || w[i] == "--tempo"@ {
        if i + 1 >= w.len() {
            Err(missing("unit:interval"@, "seq -t"@))
        } else {
            match spec_tempo(m, w[i + 1], seq_rules(voice)) {
                Err(e) => Err(e),
                Ok(tempo) => spec_seq_opts(m, voice, w, i + 2, SeqOpts { tempo, ..acc }),
            }
        }
    } else if w[i] == "-p"@ || w[i] == "--period"@ {
        if i + 1 >= w.len() {
            Err(missing("value"@, "seq -p"@))
        } else {
            match spec_parse_usize(w[i + 1]) {
                None => Err(invalid(w[i + 1], "seq -p"@)),
                Some(period) => spec_seq_opts(m, voice, w, i + 2, SeqOpts { period, ..acc }),
            }
        }
    } else if w[i] == "-s"@ || w[i] == "--steps"@ {
        if i + 1 >= w.len() {
            Err(missing("value"@, "seq -s"@))
        } else {
            match spec_numbers(spec_split(w[i + 1], ','), 0, acc.steps) {
                Err(e) => Err(e),
                Ok(steps) => spec_seq_opts(
                    m,
                    voice,
                    w,
                    i + 2,
                    SeqOpts {
                        steps,
                        chance: resized(acc.chance, steps.len(), hundred()),
                        jit: resized(acc.jit, steps.len(), hundred()),
                        ..acc
                    },
                ),
            }
        }
    } else if w[i] == "-c"@ || w[i] == "--chance"@ {
        if acc.steps.len() < 1 {
            Err(steps_first())
        } else if i + 1 >= w.len() {
            Err(missing("value"@, "seq -c"@))
        } else {
            match spec_chances(acc.steps, acc.chance, spec_split(w[i + 1], ','), 0) {
                Err(e) => Err(e),
                Ok(chance) => spec_seq_opts(m, voice, w, i + 2, SeqOpts { chance, ..acc }),
            }
        }
    } else if w[i] == "-j"@ || w[i] == "--jitter"@ {
        if acc.steps.len() < 1 {
            Err(steps_first())
        } else if i + 1 >= w.len() {
            Err(missing("value"@, "seq -j"@))
        } else {
            spec_seq_opts(m, voice, w, i + 2, acc)
        }
    } else {
        Err(invalid(w[i], "seq"@))
    }
}

/// The voice with one more process, of tempo `tempo`.
pub open spec fn attached(v: VoiceView, tempo: TempoRepr) -> VoiceView {
    VoiceView {
        processes: v.processes.push(
            ProcRepr { idx: v.processes.len() as usize, tempo: Some(tempo) },
        ),
        proc_tempi: if tempo.mode == TempoMode::Process {
            v.proc_tempi.push(tempo)
        } else {
            v.proc_tempi
        },
        ..v
    }
}

/// `seq <voice> [-t <tempo>] [-p <period>] [-s <steps>] [-c <chances>]
/// [-j <jitters>]`: a sequencer for the voice, seeded with `seed`.
pub open spec fn spec_try_seq(m: MirrorView, args: Seq<char>, seed: u64) -> Outcome {
    let w = spec_words(args);
    if w.len() == 0 {
        Outcome::Failed { err: missing("name"@, "seq"@) }
    } else {
        match spec_find_voice(m, w[0]) {
            Err(err) => Outcome::Failed { err },
            Ok(idx) => {
                let voice = voice_at(m, idx);
                let start = SeqOpts {
                    tempo: TempoRepr::spec_new(voice.proc_tempi.len() as usize),
                    period: 4,
                    steps: Seq::empty(),
                    chance: Seq::empty(),
                    jit: Seq::empty(),
                };
                match spec_seq_opts(m, voice, w, 1, start) {
                    Err(err) => Outcome::Failed { err },
                    Ok(opts) => Outcome::Done {
                        cmd: CommandView::Sequencer {
                            idx,
                            tempo: opts.tempo,
                            period: opts.period,
                            steps: opts.steps,
                            chance: opts.chance,
                            jit: opts.jit,
                            rng: X128P::spec_new(seed),
                        },
                        mirror: with_voice(m, idx, attached(voice, opts.tempo)),
                    },
                }
            },
        }
    }
}

/// The verb of a line: what stands before its first blank.
pub open spec fn verb_of(line: Seq<char>) -> Seq<char> {
    line.take(first_index(line, ' ') as int)
}

/// The arguments of a line: what stands behind its first blank.
pub open spec fn args_of(line: Seq<char>) -> Seq<char> {
    if first_index(line, ' ') < line.len() {
        line.skip(first_index(line, ' ') as int + 1)
    } else {
        Seq::empty()
    }
}

/// What the line `line` comes to in a mirror `m`, where a new sequencer
/// would be seeded with `seed`.
pub open spec fn spec_parse(m: MirrorView, line: Seq<char>, seed: u64) -> Outcome {
    let verb = verb_of(line);
    let args = args_of(line);
    if verb == "load"@ {
        spec_try_load(m, args)
    } else if verb == "start"@ {
        spec_try_start(m, args)
    } else if verb == "pause"@ {
        spec_try_pause(m, args)
    } else if verb == "resume"@ {
        spec_try_resume(m, args)
    } else if verb == "stop"@ {
        spec_try_stop(m, args)
    } else if verb == "unload"@ {
        spec_try_unload(m, args)
    } else if verb == "velocity"@ {
        spec_try_velocity(m, args)
    } else if verb == "group"@ {
        spec_try_group(m, args)
    } else if verb == "tc"@ || verb == "tempocon"@ {
        spec_try_tc(m, args)
    } else if verb == "seq"@ {
        spec_try_seq(m, args, seed)
    } else if verb == "q"@ || verb == "quit"@ {
        Outcome::Done { cmd: CommandView::Quit, mirror: m }
    } else {
        Outcome::Failed { err: CmdErrView::NoCmd { cmd: verb } }
    }
}

} // verus!
