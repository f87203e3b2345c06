//! The mirror and the engine agree: every entry of the mirror stands at the
//! place in the mirror's list at which the thing that it describes stands in
//! the engine's list, and says of its tempo what the engine has. So every
//! command that the parser gives addresses what the engine has, and after
//! the engine ran it the two agree again.

use vstd::prelude::*;
use crate::audio_processing::blast_time::{TempoMode, TempoState};
use crate::audio_processing::commands::{CommandView, Idx, TempoRepr};
use crate::audio_processing::dispatch::{
    fresh,
    Toggle,
    adopted,
    move_ids,
    rebind,
    toggled_group,
    toggled_voice,
};
use crate::audio_processing::engine::{
    ConductorModel,
    GroupModel,
    VoiceModel,
    lemma_processes_keep_frame,
    lemma_run_groups_shape,
    mix_voices,
    run_groups,
    run_processes,
    step_voices,
};
use crate::audio_processing::grammar::{
    GroupOpts,
    Outcome,
    SeqOpts,
    args_of,
    attached,
    default_group_tempo,
    following,
    follows,
    member,
    move_of,
    spec_find_voice,
    spec_get_idx,
    spec_group_opts,
    spec_parse,
    spec_resolve,
    spec_seq_opts,
    spec_try_group,
    spec_try_load,
    spec_try_pause,
    spec_try_resume,
    spec_try_seq,
    spec_try_start,
    spec_try_stop,
    spec_try_tc,
    spec_try_unload,
    spec_try_velocity,
    tc_rules,
    verb_of,
    voice_at,
};
use crate::audio_processing::invariants::{
    lemma_find_voice,
    lemma_group_opts,
    lemma_load_opts,
    lemma_resolve,
    lemma_seq_opts,
    lemma_tempo,
};
use crate::audio_processing::lists::{
    descending_in,
    distinct_in,
    lemma_places_among,
    lemma_places_len,
    lemma_position_found,
    lemma_without_members,
    places_among,
    position_of,
    reversed,
    without,
};
use crate::audio_processing::mirror::{
    MirrorView,
    NamedView,
    ProcRepr,
    TrackRepr,
    VoiceView,
    has_name,
    index_of,
    lemma_index_of_is_first,
    procs_in_order,
    ref_ok,
    renumbered,
    voice_ok,
    voices_ok,
};
use crate::audio_processing::processes::{ProcessModel, TempoLink, VoiceState, idle};
use crate::audio_processing::text::{first_index, reveal_unit_letters, spec_words};

verus! {

/// Whether the tempo `t` of the engine is the one that `r` describes: of
/// its mode and unit, and with its interval in samples.
pub open spec fn made_from(t: TempoState, r: TempoRepr, rate: u32) -> bool {
    &&& t.mode == r.mode
    &&& t.unit == r.unit
    &&& t.interval == fresh(r, rate).interval
}

/// Whether a voice or a process of the engine has its tempo where `r` says:
/// a tempo of its own that `r` describes, the tempo of the group or of the
/// tempo context that `r` refers to, or else the tempo of its voice.
pub open spec fn link_agrees(c: ConductorModel, r: TempoRepr, link: TempoLink) -> bool {
    if r.owned {
        link matches TempoLink::Own(t) && made_from(t, r, c.sample_rate)
    } else if r.mode == TempoMode::Group {
        r.idx < c.groups.len() && link == TempoLink::Shared(c.groups[r.idx as int].state.tempo)
    } else if r.mode == TempoMode::Context {
        r.idx < c.tempo_cons.len() && link == TempoLink::Shared(c.tempo_cons[r.idx as int])
    } else {
        link is Owner
    }
}

/// Whether the processes of a voice of the engine have their tempi where
/// the mirror says.
pub open spec fn procs_agree(c: ConductorModel, procs: Seq<ProcRepr>, voice: VoiceModel) -> bool {
    &&& procs.len() == voice.processes.len()
    &&& forall|k: int|
        #![trigger procs[k]]
        #![trigger voice.processes[k]]
        0 <= k < procs.len() && procs[k].tempo.is_some() ==> link_agrees(
            c,
            procs[k].tempo.unwrap(),
            voice.processes[k].link(),
        )
}

/// The entry of the mirror describes the voice of the engine: the voice
/// plays the track that the entry is named after, and it and its processes
/// have their tempi where the entry says.
pub open spec fn describes(
    names: Seq<NamedView<TrackRepr>>,
    c: ConductorModel,
    entry: NamedView<VoiceView>,
    voice: VoiceModel,
) -> bool {
    &&& has_name(names, entry.name)
    &&& voice.samples == c.tracks[names[index_of(names, entry.name) as int].item.idx as int].samples
    &&& voice.channels == c.tracks[names[index_of(
        names,
        entry.name,
    ) as int].item.idx as int].num_channels as usize
    &&& link_agrees(c, entry.item.tempo, voice.state.tempo)
    &&& procs_agree(c, entry.item.processes, voice)
}

/// The two lists have the same voices at the same places: as many voices,
/// and each entry of the first describes the voice at its place in the
/// second.
pub open spec fn same_shape(
    names: Seq<NamedView<TrackRepr>>,
    c: ConductorModel,
    mv: Seq<NamedView<VoiceView>>,
    cv: Seq<VoiceModel>,
) -> bool {
    &&& mv.len() == cv.len()
    &&& forall|i: int|
        #![trigger mv[i]]
        #![trigger cv[i]]
        0 <= i < mv.len() ==> describes(names, c, mv[i], cv[i])
}

/// Whether the tempo of a group of the engine, which stands at `place` in
/// the table, is what `r` says: a tempo that `r` describes, or the tempo of
/// the tempo context that `r` refers to.
pub open spec fn group_agrees(c: ConductorModel, r: TempoRepr, place: usize) -> bool {
    if r.owned {
        place < c.tempi.len() && made_from(c.tempi[place as int], r, c.sample_rate)
    } else {
        r.idx < c.tempo_cons.len() && place == c.tempo_cons[r.idx as int]
    }
}

/// The mirror `m` describes the engine `c`: list by list and place by place,
/// the mirror has an entry where the engine has a thing; each voice of the
/// engine plays the track that its entry in the mirror is named after;
/// every tempo of the engine is the one that the mirror describes or refers
/// to; and every track of the mirror is a track of the engine that can be
/// played.
pub open spec fn coherent(m: MirrorView, c: ConductorModel) -> bool {
    &&& same_shape(m.tracks, c, m.voices, c.voices)
    &&& m.groups.len() == c.groups.len()
    &&& forall|g: int|
        #![trigger m.groups[g]]
        #![trigger c.groups[g]]
        0 <= g < m.groups.len() ==> same_shape(
            m.tracks,
            c,
            m.groups[g].item.voices,
            c.groups[g].voices,
        ) && group_agrees(c, m.groups[g].item.tempo, c.groups[g].state.tempo)
    &&& m.tempo_cons.len() == c.tempo_cons.len()
    &&& forall|i: int|
        #![trigger m.tempo_cons[i]]
        #![trigger c.tempo_cons[i]]
        0 <= i < m.tempo_cons.len() ==> c.tempo_cons[i] < c.tempi.len() && made_from(
            c.tempi[c.tempo_cons[i] as int],
            m.tempo_cons[i].item,
            c.sample_rate,
        )
    &&& forall|t: int|
        0 <= t < m.tracks.len() ==> (#[trigger] m.tracks[t]).item.idx < c.tracks.len()
            && c.tracks[m.tracks[t].item.idx as int].num_channels >= 1
}

/// Two tempi of one mode, unit and interval.
pub open spec fn akin(a: TempoState, b: TempoState) -> bool {
    a.mode == b.mode && a.unit == b.unit && a.interval == b.interval
}

/// Two links to the same place, or to tempi that are akin.
pub open spec fn akin_link(a: TempoLink, b: TempoLink) -> bool {
    match a {
        TempoLink::Own(t) => b matches TempoLink::Own(u) && akin(t, u),
        TempoLink::Owner => b is Owner,
        TempoLink::Shared(i) => b == TempoLink::Shared(i),
    }
}

/// Two voices of the same samples and channels whose tempi and processes'
/// tempi are akin.
pub open spec fn akin_voice(a: VoiceModel, b: VoiceModel) -> bool {
    &&& a.samples == b.samples
    &&& a.channels == b.channels
    &&& akin_link(a.state.tempo, b.state.tempo)
    &&& a.processes.len() == b.processes.len()
    &&& forall|k: int|
        #![trigger a.processes[k]]
        #![trigger b.processes[k]]
        0 <= k < a.processes.len() ==> akin_link(a.processes[k].link(), b.processes[k].link())
}

/// Two lists of voices that are place by place akin.
pub open spec fn akin_voices(a: Seq<VoiceModel>, b: Seq<VoiceModel>) -> bool {
    &&& a.len() == b.len()
    &&& forall|i: int|
        #![trigger a[i]]
        #![trigger b[i]]
        0 <= i < a.len() ==> akin_voice(a[i], b[i])
}

/// The engine `d` has what `c` has where `c` has it: the same tracks and
/// rate, and at the places of `c`'s groups, tempo contexts and shared tempi
/// groups with their tempi at the same places, the same contexts, and tempi
/// that are akin.
pub open spec fn extends(c: ConductorModel, d: ConductorModel) -> bool {
    &&& d.tracks == c.tracks
    &&& d.sample_rate == c.sample_rate
    &&& c.groups.len() <= d.groups.len()
    &&& forall|g: int|
        #![trigger d.groups[g]]
        #![trigger c.groups[g]]
        0 <= g < c.groups.len() ==> d.groups[g].state.tempo == c.groups[g].state.tempo
    &&& c.tempo_cons.len() <= d.tempo_cons.len()
    &&& forall|i: int|
        #![trigger d.tempo_cons[i]]
        #![trigger c.tempo_cons[i]]
        0 <= i < c.tempo_cons.len() ==> d.tempo_cons[i] == c.tempo_cons[i]
    &&& c.tempi.len() <= d.tempi.len()
    &&& forall|i: int|
        #![trigger d.tempi[i]]
        #![trigger c.tempi[i]]
        0 <= i < c.tempi.len() ==> akin(c.tempi[i], d.tempi[i])
}

/// Two engines with the same lists, place by place akin.
pub open spec fn alike(c: ConductorModel, d: ConductorModel) -> bool {
    &&& extends(c, d)
    &&& d.tempo_cons.len() == c.tempo_cons.len()
    &&& akin_voices(c.voices, d.voices)
    &&& d.groups.len() == c.groups.len()
    &&& forall|g: int|
        #![trigger c.groups[g]]
        #![trigger d.groups[g]]
        0 <= g < c.groups.len() ==> akin_voices(c.groups[g].voices, d.groups[g].voices)
}

/// A link that agrees with a description in an engine agrees with it in an
/// engine that extends the first, and so does every link that is akin.
pub proof fn lemma_link_extends(
    c: ConductorModel,
    d: ConductorModel,
    r: TempoRepr,
    a: TempoLink,
    b: TempoLink,
)
    requires
        extends(c, d),
        link_agrees(c, r, a),
        akin_link(a, b),
    ensures
        link_agrees(d, r, b),
{
    if !r.owned && r.mode == TempoMode::Group {
        assert(d.groups[r.idx as int].state.tempo == c.groups[r.idx as int].state.tempo);
    }
    if !r.owned && r.mode == TempoMode::Context {
        assert(d.tempo_cons[r.idx as int] == c.tempo_cons[r.idx as int]);
    }
}

/// An entry that describes a voice in an engine describes every akin voice
/// in an engine that extends the first.
pub proof fn lemma_describes_extends(
    names: Seq<NamedView<TrackRepr>>,
    c: ConductorModel,
    d: ConductorModel,
    entry: NamedView<VoiceView>,
    a: VoiceModel,
    b: VoiceModel,
)
    requires
        extends(c, d),
        describes(names, c, entry, a),
        akin_voice(a, b),
    ensures
        describes(names, d, entry, b),
{
    lemma_link_extends(c, d, entry.item.tempo, a.state.tempo, b.state.tempo);
    let procs = entry.item.processes;
    assert forall|k: int| 0 <= k < procs.len() && (#[trigger] procs[k]).tempo.is_some() implies link_agrees(
        d,
        procs[k].tempo.unwrap(),
        b.processes[k].link(),
    ) by {
        assert(akin_link(a.processes[k].link(), b.processes[k].link()));
        lemma_link_extends(c, d, procs[k].tempo.unwrap(), a.processes[k].link(), b.processes[k].link());
    }
}

/// Entries that describe voices in an engine describe akin voices in an engine
/// that extends the first.
pub proof fn lemma_shape_extends(
    names: Seq<NamedView<TrackRepr>>,
    c: ConductorModel,
    d: ConductorModel,
    mv: Seq<NamedView<VoiceView>>,
    a: Seq<VoiceModel>,
    b: Seq<VoiceModel>,
)
    requires
        extends(c, d),
        same_shape(names, c, mv, a),
        akin_voices(a, b),
    ensures
        same_shape(names, d, mv, b),
{
    assert forall|i: int| 0 <= i < mv.len() implies describes(names, d, #[trigger] mv[i], b[i]) by {
        assert(describes(names, c, mv[i], a[i]));
        assert(akin_voice(a[i], b[i]));
        lemma_describes_extends(names, c, d, mv[i], a[i], b[i]);
    }
}

/// Every voice is akin to itself.
pub proof fn lemma_akin_refl(a: Seq<VoiceModel>)
    ensures
        akin_voices(a, a),
{
    assert forall|i: int| 0 <= i < a.len() implies akin_voice(#[trigger] a[i], a[i]) by {
        lemma_akin_voice_refl(a[i]);
    }
}

/// Every voice is akin to itself.
pub proof fn lemma_akin_voice_refl(v: VoiceModel)
    ensures
        akin_voice(v, v),
{
    assert forall|k: int| 0 <= k < v.processes.len() implies akin_link(
        (#[trigger] v.processes[k]).link(),
        v.processes[k].link(),
    ) by {}
}

/// What the mirror says of groups, contexts and tracks holds of an engine
/// that extends the one of which the mirror says it.
proof fn lemma_tables_extend(m: MirrorView, c: ConductorModel, d: ConductorModel)
    requires
        coherent(m, c),
        extends(c, d),
    ensures
        forall|g: int|
            0 <= g < m.groups.len() ==> group_agrees(
                d,
                (#[trigger] m.groups[g]).item.tempo,
                c.groups[g].state.tempo,
            ),
        forall|i: int|
            0 <= i < m.tempo_cons.len() ==> d.tempo_cons[i] < d.tempi.len() && made_from(
                d.tempi[d.tempo_cons[i] as int],
                (#[trigger] m.tempo_cons[i]).item,
                d.sample_rate,
            ),
        forall|t: int|
            0 <= t < m.tracks.len() ==> (#[trigger] m.tracks[t]).item.idx < d.tracks.len()
                && d.tracks[m.tracks[t].item.idx as int].num_channels >= 1,
{
    assert forall|g: int| 0 <= g < m.groups.len() implies group_agrees(
        d,
        (#[trigger] m.groups[g]).item.tempo,
        c.groups[g].state.tempo,
    ) by {
        let r = m.groups[g].item.tempo;
        let place = c.groups[g].state.tempo;
        assert(group_agrees(c, r, place));
        if r.owned {
            assert(akin(c.tempi[place as int], d.tempi[place as int]));
        } else {
            assert(d.tempo_cons[r.idx as int] == c.tempo_cons[r.idx as int]);
        }
    }
    assert forall|i: int| 0 <= i < m.tempo_cons.len() implies d.tempo_cons[i] < d.tempi.len()
        && made_from(
        d.tempi[d.tempo_cons[i] as int],
        (#[trigger] m.tempo_cons[i]).item,
        d.sample_rate,
    ) by {
        assert(c.tempo_cons[i] < c.tempi.len());
        assert(made_from(c.tempi[c.tempo_cons[i] as int], m.tempo_cons[i].item, c.sample_rate));
        assert(d.tempo_cons[i] == c.tempo_cons[i]);
        assert(akin(c.tempi[c.tempo_cons[i] as int], d.tempi[c.tempo_cons[i] as int]));
    }
    assert forall|t: int| 0 <= t < m.tracks.len() implies (#[trigger] m.tracks[t]).item.idx
        < d.tracks.len() && d.tracks[m.tracks[t].item.idx as int].num_channels >= 1 by {
        assert(m.tracks[t].item.idx < c.tracks.len());
    }
}

/// A mirror that describes an engine describes every engine that is like
/// it.
pub proof fn lemma_alike_coherent(m: MirrorView, c: ConductorModel, d: ConductorModel)
    requires
        coherent(m, c),
        alike(c, d),
    ensures
        coherent(m, d),
{
    lemma_shape_extends(m.tracks, c, d, m.voices, c.voices, d.voices);
    lemma_tables_extend(m, c, d);
    assert forall|g: int| 0 <= g < m.groups.len() implies same_shape(
        m.tracks,
        d,
        (#[trigger] m.groups[g]).item.voices,
        d.groups[g].voices,
    ) && group_agrees(d, m.groups[g].item.tempo, d.groups[g].state.tempo) by {
        assert(same_shape(m.tracks, c, m.groups[g].item.voices, c.groups[g].voices));
        assert(akin_voices(c.groups[g].voices, d.groups[g].voices));
        lemma_shape_extends(
            m.tracks,
            c,
            d,
            m.groups[g].item.voices,
            c.groups[g].voices,
            d.groups[g].voices,
        );
        assert(d.groups[g].state.tempo == c.groups[g].state.tempo);
    }
}

/// A tempo that names what the mirror has names what the engine has.
pub proof fn lemma_resolvable(m: MirrorView, c: ConductorModel, t: TempoRepr)
    requires
        coherent(m, c),
        ref_ok(t, m.groups.len(), m.tempo_cons.len()),
    ensures
        c.resolvable(t),
{
}

/// What a name addresses in the mirror, the engine has.
pub proof fn lemma_has(m: MirrorView, c: ConductorModel, ty: Seq<char>, name: Seq<char>)
    requires
        m.wf(),
        coherent(m, c),
    ensures
        spec_get_idx(m, ty, name) matches Ok(idx) ==> c.has(idx),
        spec_find_voice(m, name) matches Ok(idx) ==> c.has(idx) && (idx is Voice || idx is Member),
{
    lemma_find_voice(m, name);
    lemma_index_of_is_first(m.groups, name);
    lemma_index_of_is_first(m.tempo_cons, name);
    match spec_find_voice(m, name) {
        Ok(Idx::Member(g, v)) => {
            assert(same_shape(m.tracks, c, m.groups[g as int].item.voices, c.groups[g as int].voices));
        },
        _ => {},
    }
}

/// An engine is like itself.
pub proof fn lemma_alike_refl(c: ConductorModel)
    ensures
        alike(c, c),
{
    lemma_akin_refl(c.voices);
    assert forall|g: int| 0 <= g < c.groups.len() implies akin_voices(
        (#[trigger] c.groups[g]).voices,
        c.groups[g].voices,
    ) by {
        lemma_akin_refl(c.groups[g].voices);
    }
}

/// Changing one voice into an akin one gives an engine that is like the
/// first.
pub proof fn lemma_with_voice_alike(c: ConductorModel, idx: Idx, voice: VoiceModel)
    requires
        c.has(idx),
        idx is Voice || idx is Member,
        akin_voice(c.voice(idx), voice),
    ensures
        alike(c, c.with_voice(idx, voice)),
{
    let d = c.with_voice(idx, voice);
    lemma_alike_refl(c);
    match idx {
        Idx::Member(g, v) => {
            assert forall|h: int| 0 <= h < c.groups.len() implies akin_voices(
                (#[trigger] c.groups[h]).voices,
                d.groups[h].voices,
            ) by {
                assert(akin_voices(c.groups[h].voices, c.groups[h].voices));
                if h == g {
                    assert forall|i: int| 0 <= i < c.groups[h].voices.len() implies akin_voice(
                        #[trigger] c.groups[h].voices[i],
                        d.groups[h].voices[i],
                    ) by {
                        lemma_akin_voice_refl(c.groups[h].voices[i]);
                    }
                }
            }
        },
        Idx::Voice(v) => {
            assert forall|i: int| 0 <= i < c.voices.len() implies akin_voice(
                #[trigger] c.voices[i],
                d.voices[i],
            ) by {
                lemma_akin_voice_refl(c.voices[i]);
            }
        },
        _ => {},
    }
}

/// A voice that was switched on or off is akin to what it was.
pub proof fn lemma_toggled_akin(v: VoiceModel, op: Toggle)
    ensures
        akin_voice(v, toggled_voice(v, op)),
{
    let w = toggled_voice(v, op);
    assert forall|k: int| 0 <= k < v.processes.len() implies akin_link(
        (#[trigger] v.processes[k]).link(),
        w.processes[k].link(),
    ) by {}
}

/// Switching something on or off leaves the engine like it was.
pub proof fn lemma_toggle_alike(c: ConductorModel, idx: Idx, op: Toggle)
    requires
        c.has(idx),
    ensures
        alike(c, c.toggle(idx, op)),
{
    let d = c.toggle(idx, op);
    lemma_alike_refl(c);
    match idx {
        Idx::Voice(_) => {
            lemma_toggled_akin(c.voice(idx), op);
            lemma_with_voice_alike(c, idx, toggled_voice(c.voice(idx), op));
        },
        Idx::Member(_, _) => {
            lemma_toggled_akin(c.voice(idx), op);
            lemma_with_voice_alike(c, idx, toggled_voice(c.voice(idx), op));
        },
        Idx::Group(g) => {
            let old = c.groups[g as int];
            let new = toggled_group(old, op);
            assert forall|i: int| 0 <= i < old.voices.len() implies akin_voice(
                #[trigger] old.voices[i],
                new.voices[i],
            ) by {
                lemma_toggled_akin(old.voices[i], Toggle::Start);
                lemma_akin_voice_refl(old.voices[i]);
                let w = new.voices[i];
                assert forall|k: int| 0 <= k < old.voices[i].processes.len() implies akin_link(
                    (#[trigger] old.voices[i].processes[k]).link(),
                    w.processes[k].link(),
                ) by {}
            }
            assert forall|h: int| 0 <= h < c.groups.len() implies akin_voices(
                (#[trigger] c.groups[h]).voices,
                d.groups[h].voices,
            ) by {
                assert(akin_voices(c.groups[h].voices, c.groups[h].voices));
            }
        },
        _ => {},
    }
}

/// Switching something on or off changes no list's length, no voice's
/// track and no tempo's kind.
pub proof fn lemma_toggle_coherent(m: MirrorView, c: ConductorModel, idx: Idx, op: Toggle)
    requires
        coherent(m, c),
        c.has(idx),
    ensures
        coherent(m, c.toggle(idx, op)),
{
    lemma_toggle_alike(c, idx, op);
    lemma_alike_coherent(m, c, c.toggle(idx, op));
}

/// Taking the same places out of two lists of one shape leaves two lists of
/// one shape.
pub proof fn lemma_without_shape(
    names: Seq<NamedView<TrackRepr>>,
    c: ConductorModel,
    mv: Seq<NamedView<VoiceView>>,
    cv: Seq<VoiceModel>,
    ids: Seq<usize>,
)
    requires
        same_shape(names, c, mv, cv),
    ensures
        same_shape(names, c, without(mv, ids), without(cv, ids)),
        same_shape(names, c, renumbered(without(mv, ids)), without(cv, ids)),
    decreases mv.len(),
{
    if mv.len() > 0 {
        assert(same_shape(names, c, mv.drop_last(), cv.drop_last())) by {
            assert forall|i: int| 0 <= i < mv.drop_last().len() implies describes(
                names,
                c,
                #[trigger] mv.drop_last()[i],
                cv.drop_last()[i],
            ) by {
                assert(describes(names, c, mv[i], cv[i]));
            }
        }
        lemma_without_shape(names, c, mv.drop_last(), cv.drop_last(), ids);
        let a = without(mv, ids);
        let b = without(cv, ids);
        let a0 = without(mv.drop_last(), ids);
        assert(describes(names, c, mv.last(), cv.last()));
        assert forall|i: int| 0 <= i < a.len() implies describes(names, c, #[trigger] a[i], b[i]) by {
            if i < a0.len() {
                assert(describes(names, c, a0[i], without(cv.drop_last(), ids)[i]));
            }
        }
    }
    let a = without(mv, ids);
    let r = renumbered(a);
    assert forall|i: int| 0 <= i < r.len() implies describes(
        names,
        c,
        #[trigger] r[i],
        without(cv, ids)[i],
    ) by {
        assert(describes(names, c, a[i], without(cv, ids)[i]));
    }
}

/// Letting processes follow another tempo changes their number by none,
/// gives the processes at the places named the new link, and leaves the
/// others as they were.
pub proof fn lemma_rebind(procs: Seq<ProcessModel>, places: Seq<usize>, link: TempoLink, n: int)
    requires
        0 <= n <= places.len(),
        procs.len() <= usize::MAX,
    ensures
        rebind(procs, places, link, n).len() == procs.len(),
        forall|k: int|
            0 <= k < procs.len() ==> (#[trigger] rebind(procs, places, link, n)[k]).link() == (
            if places.take(n).contains(k as usize) {
                link
            } else {
                procs[k].link()
            }),
    decreases n,
{
    if n > 0 {
        lemma_rebind(procs, places, link, n - 1);
        let before = rebind(procs, places, link, n - 1);
        let after = rebind(procs, places, link, n);
        let at = places[n - 1];
        assert(places.take(n) =~= places.take(n - 1).push(at));
        assert forall|k: int| 0 <= k < procs.len() implies (#[trigger] after[k]).link() == (
        if places.take(n).contains(k as usize) {
            link
        } else {
            procs[k].link()
        }) by {
            if places.take(n - 1).contains(k as usize) {
                let j = choose|j: int| 0 <= j < n - 1 && #[trigger] places.take(n - 1)[j] == k as usize;
                assert(places.take(n)[j] == k as usize);
            }
            if k == at {
                assert(places.take(n)[n - 1] == at);
            } else if places.take(n).contains(k as usize) {
                let j = choose|j: int| 0 <= j < n && #[trigger] places.take(n)[j] == k as usize;
                assert(j < n - 1);
                assert(places.take(n - 1)[j] == k as usize);
            }
        }
    } else {
        assert(places.take(0).len() == 0);
    }
}

/// The places of the processes that go with their voice are the places of
/// exactly those processes.
pub proof fn lemma_following(procs: Seq<ProcRepr>, k: int)
    requires
        procs_in_order(procs),
        0 <= k < procs.len(),
        procs.len() <= usize::MAX,
    ensures
        following(procs).contains(k as usize) <==> follows(procs[k]),
    decreases procs.len(),
{
    let before = procs.drop_last();
    let last = procs.len() - 1;
    assert(procs.last().idx == last);
    if k < last {
        assert(procs_in_order(before)) by {
            assert forall|j: int| 0 <= j < before.len() implies (#[trigger] before[j]).idx == j by {
                assert(procs[j].idx == j);
            }
        }
        lemma_following(before, k);
        lemma_following_below(before);
        if follows(procs.last()) {
            let f = following(before);
            let g = following(procs);
            if f.contains(k as usize) {
                let j = choose|j: int| 0 <= j < f.len() && #[trigger] f[j] == k as usize;
                assert(g[j] == k as usize);
            }
            if g.contains(k as usize) {
                let j = choose|j: int| 0 <= j < g.len() && #[trigger] g[j] == k as usize;
                assert(f[j] == k as usize);
            }
        }
    } else {
        lemma_following_below(before);
        assert(procs_in_order(before)) by {
            assert forall|j: int| 0 <= j < before.len() implies (#[trigger] before[j]).idx == j by {
                assert(procs[j].idx == j);
            }
        }
        if follows(procs.last()) {
            let g = following(procs);
            assert(g[g.len() - 1] == k as usize);
        } else {
            let f = following(before);
            if f.contains(k as usize) {
                let j = choose|j: int| 0 <= j < f.len() && #[trigger] f[j] == k as usize;
                assert(f[j] < before.len());
            }
        }
    }
}

/// The places of processes are below their number.
pub proof fn lemma_following_below(procs: Seq<ProcRepr>)
    requires
        forall|j: int| 0 <= j < procs.len() ==> (#[trigger] procs[j]).idx == j,
    ensures
        forall|j: int| 0 <= j < following(procs).len() ==> #[trigger] following(procs)[j] < procs.len(),
    decreases procs.len(),
{
    if procs.len() > 0 {
        let before = procs.drop_last();
        assert forall|j: int| 0 <= j < before.len() implies (#[trigger] before[j]).idx == j by {
            assert(procs[j].idx == j);
        }
        lemma_following_below(before);
        assert(procs.last().idx == procs.len() - 1);
        let f = following(procs);
        assert forall|j: int| 0 <= j < f.len() implies #[trigger] f[j] < procs.len() by {
            if j < following(before).len() {
                assert(following(before)[j] < before.len());
            }
        }
    }
}

/// `load`: the engine can run the command, and agrees with the mirror after
/// it.
pub proof fn lemma_load_coherent(m: MirrorView, c: ConductorModel, args: Seq<char>)
    requires
        m.wf(),
        coherent(m, c),
    ensures
        spec_try_load(m, args) matches Outcome::Done { cmd, mirror } ==> c.accepts(cmd)
            && coherent(mirror, c.apply(cmd)),
{
    let w = spec_words(args);
    match spec_try_load(m, args) {
        Outcome::Done { cmd, mirror } => {
            lemma_load_opts(m, w, 1, TempoRepr::spec_new(0));
            lemma_index_of_is_first(m.tracks, w[0]);
            let t = index_of(m.tracks, w[0]) as int;
            assert(m.tracks[t].item.idx < c.tracks.len());
            let d = c.apply(cmd);
            lemma_akin_refl(c.voices);
            lemma_tables_extend(m, c, d);
            assert forall|g: int| 0 <= g < mirror.groups.len() implies same_shape(
                mirror.tracks,
                d,
                (#[trigger] mirror.groups[g]).item.voices,
                d.groups[g].voices,
            ) && group_agrees(d, mirror.groups[g].item.tempo, d.groups[g].state.tempo) by {
                assert(same_shape(m.tracks, c, m.groups[g].item.voices, c.groups[g].voices));
                lemma_akin_refl(c.groups[g].voices);
                lemma_shape_extends(
                    m.tracks,
                    c,
                    d,
                    m.groups[g].item.voices,
                    c.groups[g].voices,
                    c.groups[g].voices,
                );
            }
            assert forall|i: int| 0 <= i < mirror.voices.len() implies describes(
                mirror.tracks,
                d,
                #[trigger] mirror.voices[i],
                d.voices[i],
            ) by {
                if i < m.voices.len() {
                    assert(describes(m.tracks, c, m.voices[i], c.voices[i]));
                    lemma_akin_voice_refl(c.voices[i]);
                    lemma_describes_extends(m.tracks, c, d, m.voices[i], c.voices[i], c.voices[i]);
                }
            }
        },
        _ => {},
    }
}

/// `unload`: the engine can run the command, and agrees with the mirror
/// after it.
pub proof fn lemma_unload_coherent(m: MirrorView, c: ConductorModel, name: Seq<char>)
    requires
        m.wf(),
        coherent(m, c),
    ensures
        spec_try_unload(m, name) matches Outcome::Done { cmd, mirror } ==> c.accepts(cmd)
            && coherent(mirror, c.apply(cmd)),
{
    match spec_try_unload(m, name) {
        Outcome::Done { cmd, mirror } => {
            lemma_index_of_is_first(m.voices, name);
            let at = index_of(m.voices, name) as int;
            let d = c.apply(cmd);
            assert(d.voices == c.voices.remove(at));
            lemma_tables_extend(m, c, d);
            assert forall|g: int| 0 <= g < mirror.groups.len() implies same_shape(
                mirror.tracks,
                d,
                (#[trigger] mirror.groups[g]).item.voices,
                d.groups[g].voices,
            ) && group_agrees(d, mirror.groups[g].item.tempo, d.groups[g].state.tempo) by {
                assert(same_shape(m.tracks, c, m.groups[g].item.voices, c.groups[g].voices));
                lemma_akin_refl(c.groups[g].voices);
                lemma_shape_extends(
                    m.tracks,
                    c,
                    d,
                    m.groups[g].item.voices,
                    c.groups[g].voices,
                    c.groups[g].voices,
                );
            }
            assert forall|i: int| 0 <= i < mirror.voices.len() implies describes(
                mirror.tracks,
                d,
                #[trigger] mirror.voices[i],
                d.voices[i],
            ) by {
                let a = if i < at { i } else { i + 1 };
                assert(describes(m.tracks, c, m.voices[a], c.voices[a]));
                lemma_akin_voice_refl(c.voices[a]);
                lemma_describes_extends(m.tracks, c, d, m.voices[a], c.voices[a], c.voices[a]);
            }
        },
        _ => {},
    }
}

/// `start`, `pause`, `resume`, `stop` and `velocity`: the engine can run the
/// command, and agrees with the mirror after it.
pub proof fn lemma_switch_coherent(m: MirrorView, c: ConductorModel, args: Seq<char>)
    requires
        m.wf(),
        coherent(m, c),
    ensures
        spec_try_start(m, args) matches Outcome::Done { cmd, mirror } ==> c.accepts(cmd)
            && coherent(mirror, c.apply(cmd)),
        spec_try_pause(m, args) matches Outcome::Done { cmd, mirror } ==> c.accepts(cmd)
            && coherent(mirror, c.apply(cmd)),
        spec_try_resume(m, args) matches Outcome::Done { cmd, mirror } ==> c.accepts(cmd)
            && coherent(mirror, c.apply(cmd)),
        spec_try_stop(m, args) matches Outcome::Done { cmd, mirror } ==> c.accepts(cmd)
            && coherent(mirror, c.apply(cmd)),
        spec_try_velocity(m, args) matches Outcome::Done { cmd, mirror } ==> c.accepts(cmd)
            && coherent(mirror, c.apply(cmd)),
{
    let w = spec_words(args);
    if w.len() >= 2 {
        lemma_has(m, c, w[0], w[1]);
        match spec_get_idx(m, w[0], w[1]) {
            Ok(idx) => {
                lemma_toggle_coherent(m, c, idx, Toggle::Start);
                lemma_toggle_coherent(m, c, idx, Toggle::Pause);
                lemma_toggle_coherent(m, c, idx, Toggle::Resume);
                lemma_toggle_coherent(m, c, idx, Toggle::Stop);
            },
            Err(_) => {},
        }
    }
    match spec_try_velocity(m, args) {
        Outcome::Done { cmd, mirror } => {
            let name = args.take(first_index(args, ' ') as int);
            lemma_has(m, c, name, name);
            let idx = spec_find_voice(m, name)->Ok_0;
            let val = cmd->val;
            let voice = VoiceModel {
                state: VoiceState { velocity: val, ..c.voice(idx).state },
                ..c.voice(idx)
            };
            lemma_akin_voice_refl(c.voice(idx));
            assert(akin_voice(c.voice(idx), voice)) by {
                assert forall|k: int| 0 <= k < voice.processes.len() implies akin_link(
                    (#[trigger] c.voice(idx).processes[k]).link(),
                    voice.processes[k].link(),
                ) by {}
            }
            lemma_with_voice_alike(c, idx, voice);
            lemma_alike_coherent(m, c, c.apply(cmd));
        },
        _ => {},
    }
}

/// `tc`: the engine can run the command, and agrees with the mirror after
/// it.
pub proof fn lemma_tc_coherent(m: MirrorView, c: ConductorModel, args: Seq<char>)
    requires
        m.wf(),
        coherent(m, c),
        c.tempi.len() <= usize::MAX,
    ensures
        spec_try_tc(m, args) matches Outcome::Done { cmd, mirror } ==> c.accepts(cmd) && coherent(
            mirror,
            c.apply(cmd),
        ),
{
    let w = spec_words(args);
    match spec_try_tc(m, args) {
        Outcome::Done { cmd, mirror } => {
            lemma_tempo(m, w[1], tc_rules(m));
            reveal_unit_letters();
            let d = c.apply(cmd);
            lemma_tables_extend(m, c, d);
            lemma_akin_refl(c.voices);
            lemma_shape_extends(m.tracks, c, d, m.voices, c.voices, c.voices);
            assert forall|g: int| 0 <= g < mirror.groups.len() implies same_shape(
                mirror.tracks,
                d,
                (#[trigger] mirror.groups[g]).item.voices,
                d.groups[g].voices,
            ) && group_agrees(d, mirror.groups[g].item.tempo, d.groups[g].state.tempo) by {
                assert(same_shape(m.tracks, c, m.groups[g].item.voices, c.groups[g].voices));
                lemma_akin_refl(c.groups[g].voices);
                lemma_shape_extends(
                    m.tracks,
                    c,
                    d,
                    m.groups[g].item.voices,
                    c.groups[g].voices,
                    c.groups[g].voices,
                );
            }
        },
        _ => {},
    }
}

/// `group`: the engine can run the command, and agrees with the mirror
/// after it.
pub proof fn lemma_group_coherent(m: MirrorView, c: ConductorModel, args: Seq<char>)
    requires
        m.wf(),
        coherent(m, c),
        c.tempi.len() <= usize::MAX,
    ensures
        spec_try_group(m, args) matches Outcome::Done { cmd, mirror } ==> c.accepts(cmd)
            && coherent(mirror, c.apply(cmd)),
{
    let w = spec_words(args);
    match spec_try_group(m, args) {
        Outcome::Done { cmd, mirror } => {
            let start = GroupOpts {
                tempo: default_group_tempo(m.groups.len() as usize),
                names: Seq::empty(),
            };
            lemma_group_opts(m, w, 1, start);
            let opts = spec_group_opts(m, w, 1, start)->Ok_0;
            lemma_resolve(m.voices, opts.names, 0, Seq::empty());
            let ids = spec_resolve(m.voices, opts.names, 0, Seq::empty())->Ok_0;
            let rising = places_among(m.voices.len(), ids);
            lemma_places_among(m.voices.len(), ids);
            lemma_places_len(m.voices.len(), ids);
            let falling = reversed(rising);
            let n = rising.len() as int;
            let moves = Seq::new(
                falling.len(),
                |j: int| move_of(m.voices[falling[j] as int].item, falling[j]),
            );
            let order = Seq::new(ids.len(), |i: int| position_of(falling, ids[i]) as usize);
            assert(move_ids(moves) =~= falling);
            assert(descending_in(falling, c.voices.len())) by {
                assert forall|i: int, j: int| 0 <= i < j < falling.len() implies falling[i]
                    > falling[j] by {
                    assert(rising[n - 1 - j] < rising[n - 1 - i]);
                }
                assert forall|i: int| 0 <= i < falling.len() implies #[trigger] falling[i]
                    < c.voices.len() by {
                    assert(rising[n - 1 - i] < m.voices.len());
                }
            }
            // each voice of the group is found where `order` says
            assert forall|i: int| 0 <= i < ids.len() implies (#[trigger] order[i]) < falling.len()
                && falling[order[i] as int] == ids[i] by {
                assert(ids.contains(ids[i]));
                assert(ids[i] < m.voices.len());
                assert(rising.contains(ids[i]));
                let a = choose|a: int| 0 <= a < rising.len() && #[trigger] rising[a] == ids[i];
                assert(falling[n - 1 - a] == ids[i]);
                assert(falling.contains(ids[i]));
                lemma_position_found(falling, ids[i]);
            }
            assert(distinct_in(order, moves.len())) by {
                assert forall|a: int, b: int| 0 <= a < b < order.len() implies order[a]
                    != order[b] by {
                    assert(falling[order[a] as int] == ids[a]);
                    assert(falling[order[b] as int] == ids[b]);
                    assert(ids[a] != ids[b]);
                }
            }
            assert(c.resolvable(opts.tempo));
            assert(c.accepts(cmd));
            let d = c.apply(cmd);
            let place = c.place_of(opts.tempo);
            let at = m.groups.len() as int;
            assert(extends(c, d));
            lemma_tables_extend(m, c, d);
            // the voices that stay
            assert forall|x: usize| ids.contains(x) <==> falling.contains(x) by {
                if ids.contains(x) {
                    let i = choose|i: int| 0 <= i < ids.len() && #[trigger] ids[i] == x;
                    assert(falling[order[i] as int] == x);
                }
                if falling.contains(x) {
                    let j = choose|j: int| 0 <= j < falling.len() && #[trigger] falling[j] == x;
                    assert(ids.contains(rising[n - 1 - j]));
                }
            }
            lemma_without_members(c.voices, ids, falling);
            lemma_without_shape(m.tracks, c, m.voices, c.voices, ids);
            lemma_akin_refl(without(c.voices, ids));
            lemma_shape_extends(
                m.tracks,
                c,
                d,
                renumbered(without(m.voices, ids)),
                without(c.voices, ids),
                without(c.voices, ids),
            );
            // the new group's tempo
            assert(group_agrees(d, opts.tempo, place));
            let link = TempoLink::Shared(place);
            let inherited = TempoRepr::spec_clone_owner(opts.tempo);
            assert(link_agrees(d, inherited, link));
            assert forall|g: int| 0 <= g < mirror.groups.len() implies same_shape(
                mirror.tracks,
                d,
                (#[trigger] mirror.groups[g]).item.voices,
                d.groups[g].voices,
            ) && group_agrees(d, mirror.groups[g].item.tempo, d.groups[g].state.tempo) by {
                if g < at {
                    assert(same_shape(m.tracks, c, m.groups[g].item.voices, c.groups[g].voices));
                    lemma_akin_refl(c.groups[g].voices);
                    lemma_shape_extends(
                        m.tracks,
                        c,
                        d,
                        m.groups[g].item.voices,
                        c.groups[g].voices,
                        c.groups[g].voices,
                    );
                } else {
                    let mv = mirror.groups[g].item.voices;
                    let cv = d.groups[g].voices;
                    assert(mv.len() == cv.len());
                    assert forall|i: int| 0 <= i < mv.len() implies describes(
                        mirror.tracks,
                        d,
                        #[trigger] mv[i],
                        cv[i],
                    ) by {
                        let from = ids[i] as int;
                        let entry = m.voices[from];
                        let voice = c.voices[from];
                        assert(falling[order[i] as int] == ids[i]);
                        assert(describes(m.tracks, c, entry, voice));
                        assert(moves[order[i] as int] == move_of(entry.item, ids[i]));
                        assert(cv[i] == adopted(voice, moves[order[i] as int], place));
                        assert(mv[i] == member(entry, i, opts.tempo));
                        assert(voice_ok(entry.item, m.groups.len(), m.tempo_cons.len()));
                        lemma_akin_voice_refl(voice);
                        lemma_describes_extends(m.tracks, c, d, entry, voice, voice);
                        lemma_adopted(d, entry, voice, i, opts.tempo, place);
                    }
                }
            }
        },
        _ => {},
    }
}

/// A voice that enters a group is described by its entry as a member.
proof fn lemma_adopted(
    d: ConductorModel,
    entry: NamedView<VoiceView>,
    voice: VoiceModel,
    slot: int,
    tempo: TempoRepr,
    place: usize,
)
    requires
        procs_in_order(entry.item.processes),
        entry.item.processes.len() <= usize::MAX,
        describes_links(d, entry, voice),
        link_agrees(d, TempoRepr::spec_clone_owner(tempo), TempoLink::Shared(place)),
    ensures
        describes_links(
            d,
            member(entry, slot, tempo),
            adopted(voice, move_of(entry.item, 0), place),
        ),
        adopted(voice, move_of(entry.item, 0), place).samples == voice.samples,
        adopted(voice, move_of(entry.item, 0), place).channels == voice.channels,
{
    let mv = move_of(entry.item, 0);
    let after = adopted(voice, mv, place);
    let procs = entry.item.processes;
    if mv.inherit {
        lemma_rebind(voice.processes, mv.procs, TempoLink::Shared(place), mv.procs.len() as int);
        assert(mv.procs.take(mv.procs.len() as int) =~= mv.procs);
        let new = member(entry, slot, tempo).item.processes;
        assert forall|k: int| 0 <= k < new.len() && (#[trigger] new[k]).tempo.is_some() implies link_agrees(
            d,
            new[k].tempo.unwrap(),
            after.processes[k].link(),
        ) by {
            lemma_following(procs, k);
            if follows(procs[k]) {
            } else {
                assert(new[k] == procs[k]);
                assert(procs[k].tempo.is_some());
            }
        }
    }
}

/// The part of `describes` that speaks of tempi.
pub open spec fn describes_links(
    c: ConductorModel,
    entry: NamedView<VoiceView>,
    voice: VoiceModel,
) -> bool {
    &&& link_agrees(c, entry.item.tempo, voice.state.tempo)
    &&& procs_agree(c, entry.item.processes, voice)
}

/// `seq`: the engine can run the command, and agrees with the mirror after
/// it.
pub proof fn lemma_seq_coherent(m: MirrorView, c: ConductorModel, args: Seq<char>, seed: u64)
    requires
        m.wf(),
        coherent(m, c),
    ensures
        spec_try_seq(m, args, seed) matches Outcome::Done { cmd, mirror } ==> c.accepts(cmd)
            && coherent(mirror, c.apply(cmd)),
{
    let w = spec_words(args);
    match spec_try_seq(m, args, seed) {
        Outcome::Done { cmd, mirror } => {
            lemma_has(m, c, w[0], w[0]);
            let idx = spec_find_voice(m, w[0])->Ok_0;
            let voice = voice_at(m, idx);
            let groups = m.groups.len();
            let contexts = m.tempo_cons.len();
            match idx {
                Idx::Voice(v) => {
                    assert(voice_ok(m.voices[v as int].item, groups, contexts));
                },
                Idx::Member(g, v) => {
                    assert(voices_ok(m.groups[g as int].item.voices, groups, contexts));
                    assert(voice_ok(m.groups[g as int].item.voices[v as int].item, groups, contexts));
                },
                _ => {},
            }
            let start = SeqOpts {
                tempo: TempoRepr::spec_new(voice.proc_tempi.len() as usize),
                period: 4,
                steps: Seq::empty(),
                chance: Seq::empty(),
                jit: Seq::empty(),
            };
            lemma_seq_opts(m, voice, w, 1, start);
            let opts = spec_seq_opts(m, voice, w, 1, start)->Ok_0;
            lemma_resolvable(m, c, opts.tempo);
            assert(c.accepts(cmd));
            let d = c.apply(cmd);
            lemma_alike_refl(c);
            assert(extends(c, d));
            lemma_tables_extend(m, c, d);
            let link = c.process_link(opts.tempo);
            assert(link_agrees(d, opts.tempo, link));
            assert forall|i: int| 0 <= i < mirror.voices.len() implies describes(
                mirror.tracks,
                d,
                #[trigger] mirror.voices[i],
                d.voices[i],
            ) by {
                assert(describes(m.tracks, c, m.voices[i], c.voices[i]));
                lemma_akin_voice_refl(c.voices[i]);
                lemma_describes_extends(m.tracks, c, d, m.voices[i], c.voices[i], c.voices[i]);
                if idx == Idx::Voice(i as usize) {
                    lemma_attached(d, m.voices[i], c.voices[i], opts.tempo, d.voices[i]);
                }
            }
            assert forall|h: int| 0 <= h < mirror.groups.len() implies same_shape(
                mirror.tracks,
                d,
                (#[trigger] mirror.groups[h]).item.voices,
                d.groups[h].voices,
            ) && group_agrees(d, mirror.groups[h].item.tempo, d.groups[h].state.tempo) by {
                assert(same_shape(m.tracks, c, m.groups[h].item.voices, c.groups[h].voices));
                let mv = mirror.groups[h].item.voices;
                let old = m.groups[h].item.voices;
                assert forall|i: int| 0 <= i < mv.len() implies describes(
                    mirror.tracks,
                    d,
                    #[trigger] mv[i],
                    d.groups[h].voices[i],
                ) by {
                    let eng = c.groups[h].voices[i];
                    assert(describes(m.tracks, c, old[i], eng));
                    lemma_akin_voice_refl(eng);
                    lemma_describes_extends(m.tracks, c, d, old[i], eng, eng);
                    if idx == Idx::Member(h as usize, i as usize) {
                        lemma_attached(d, old[i], eng, opts.tempo, d.groups[h].voices[i]);
                    }
                }
            }
        },
        _ => {},
    }
}

/// A voice with one more process, whose tempo is where the description
/// says, is described by its entry with one more process.
proof fn lemma_attached(
    d: ConductorModel,
    entry: NamedView<VoiceView>,
    voice: VoiceModel,
    tempo: TempoRepr,
    after: VoiceModel,
)
    requires
        describes_links(d, entry, voice),
        after.state == voice.state,
        after.processes.len() == voice.processes.len() + 1,
        forall|k: int| 0 <= k < voice.processes.len() ==> after.processes[k] == voice.processes[k],
        link_agrees(d, tempo, after.processes[voice.processes.len() as int].link()),
    ensures
        describes_links(
            d,
            NamedView { name: entry.name, item: attached(entry.item, tempo) },
            after,
        ),
{
    let new = attached(entry.item, tempo).processes;
    assert forall|k: int| 0 <= k < new.len() && (#[trigger] new[k]).tempo.is_some() implies link_agrees(
        d,
        new[k].tempo.unwrap(),
        after.processes[k].link(),
    ) by {
        if k < entry.item.processes.len() {
            assert(new[k] == entry.item.processes[k]);
            assert(entry.item.processes[k].tempo.is_some());
        }
    }
}

/// Index coherence between the mirror and the engine. Where the mirror is in
/// order and describes the engine, whose table of tempi is short enough for
/// its length to be an index, the command that a line gives is one that the
/// engine can run, and the mirror after the line describes the engine after
/// the command. So after any sequence of lines read and commands run, each
/// entry of the mirror still stands at the place of the thing that it
/// describes, and says of its tempo what the engine has.
pub proof fn lemma_parse_coherent(m: MirrorView, c: ConductorModel, line: Seq<char>, seed: u64)
    requires
        m.wf(),
        coherent(m, c),
        c.tempi.len() <= usize::MAX,
    ensures
        spec_parse(m, line, seed) matches Outcome::Done { cmd, mirror } ==> c.accepts(cmd)
            && coherent(mirror, c.apply(cmd)),
{
    let verb = verb_of(line);
    let args = args_of(line);
    if verb == "load"@ {
        lemma_load_coherent(m, c, args);
    } else if verb == "start"@ || verb == "pause"@ || verb == "resume"@ || verb == "stop"@ || verb
        == "velocity"@ {
        lemma_switch_coherent(m, c, args);
    } else if verb == "unload"@ {
        lemma_unload_coherent(m, c, args);
    } else if verb == "group"@ {
        lemma_group_coherent(m, c, args);
    } else if verb == "tc"@ || verb == "tempocon"@ {
        lemma_tc_coherent(m, c, args);
    } else if verb == "seq"@ {
        lemma_seq_coherent(m, c, args, seed);
    } else if verb == "q"@ || verb == "quit"@ {
        lemma_alike_refl(c);
        let d = c.apply(CommandView::Quit);
        assert(alike(c, d));
        lemma_alike_coherent(m, c, d);
    }
}

/// Playing changes neither what voices there are, nor what they play, nor
/// whose tempo is whose: a mirror that describes the engine describes it
/// after any number of frames.
pub proof fn lemma_play_coherent(m: MirrorView, c: ConductorModel, frames: int)
    requires
        coherent(m, c),
        0 <= frames,
    ensures
        coherent(m, c.play(frames).0),
{
    lemma_play_alike(c, frames);
    lemma_alike_coherent(m, c, c.play(frames).0);
}

/// Processes that ran keep their links.
proof fn lemma_run_keeps_links(
    procs: Seq<ProcessModel>,
    voice: VoiceState,
    own: TempoState,
    tempi: Seq<TempoState>,
    n: int,
)
    requires
        0 <= n <= procs.len(),
    ensures
        run_processes(procs, voice, own, tempi, n).0.len() == procs.len(),
        forall|k: int|
            0 <= k < procs.len() ==> (#[trigger] run_processes(procs, voice, own, tempi, n).0[k]).link()
                == procs[k].link(),
    decreases n,
{
    if n > 0 {
        lemma_run_keeps_links(procs, voice, own, tempi, n - 1);
    }
}

/// A voice after a sample is akin to what it was.
proof fn lemma_step_akin(
    voices: Seq<VoiceModel>,
    tempi: Seq<TempoState>,
    ch: usize,
    out_channels: usize,
)
    ensures
        akin_voices(voices, step_voices(voices, tempi, ch, out_channels)),
{
    let after = step_voices(voices, tempi, ch, out_channels);
    assert forall|i: int| 0 <= i < voices.len() implies akin_voice(#[trigger] voices[i], after[i]) by {
        let v = voices[i];
        let own = v.state.tempo.spec_resolve(idle(), tempi);
        lemma_processes_keep_frame(v.processes, v.state, own, tempi, v.processes.len() as int);
        lemma_run_keeps_links(v.processes, v.state, own, tempi, v.processes.len() as int);
        lemma_akin_voice_refl(v);
        assert forall|k: int| 0 <= k < v.processes.len() implies akin_link(
            (#[trigger] v.processes[k]).link(),
            after[i].processes[k].link(),
        ) by {
            if v.state.active {
                let ran = run_processes(v.processes, v.state, own, tempi, v.processes.len() as int).0;
                assert(ran[k].link() == v.processes[k].link());
            }
        }
    }
}

/// Groups after a sample are, voice by voice, akin to what they were, and
/// so are the tempi in the table.
proof fn lemma_groups_akin(
    groups: Seq<GroupModel>,
    tempi: Seq<TempoState>,
    acc: i16,
    ch: usize,
    out_channels: usize,
    n: int,
)
    requires
        0 <= n <= groups.len(),
    ensures
        run_groups(groups, tempi, acc, ch, out_channels, n).0.len() == groups.len(),
        run_groups(groups, tempi, acc, ch, out_channels, n).1.len() == tempi.len(),
        forall|g: int|
            0 <= g < groups.len() ==> akin_voices(
                (#[trigger] groups[g]).voices,
                run_groups(groups, tempi, acc, ch, out_channels, n).0[g].voices,
            ) && run_groups(groups, tempi, acc, ch, out_channels, n).0[g].state == groups[g].state,
        forall|i: int|
            0 <= i < tempi.len() ==> akin(
                tempi[i],
                #[trigger] run_groups(groups, tempi, acc, ch, out_channels, n).1[i],
            ),
    decreases n,
{
    if n > 0 {
        lemma_groups_akin(groups, tempi, acc, ch, out_channels, n - 1);
        lemma_run_groups_shape(groups, tempi, acc, ch, out_channels, n - 1);
        let (g0, t0, a0) = run_groups(groups, tempi, acc, ch, out_channels, n - 1);
        lemma_step_akin(g0[n - 1].voices, t0, ch, out_channels);
        let after = run_groups(groups, tempi, acc, ch, out_channels, n);
        assert forall|g: int| 0 <= g < groups.len() implies akin_voices(
            (#[trigger] groups[g]).voices,
            after.0[g].voices,
        ) && after.0[g].state == groups[g].state by {
            assert(akin_voices(groups[g].voices, g0[g].voices));
            if g != n - 1 {
                assert(after.0[g] == g0[g]);
            } else {
                lemma_akin_refl(groups[g].voices);
            }
        }
        assert forall|i: int| 0 <= i < tempi.len() implies akin(tempi[i], #[trigger] after.1[i]) by {
            assert(akin(tempi[i], t0[i]));
        }
    } else {
        assert forall|g: int| 0 <= g < groups.len() implies akin_voices(
            (#[trigger] groups[g]).voices,
            groups[g].voices,
        ) by {
            lemma_akin_refl(groups[g].voices);
        }
    }
}

proof fn lemma_sample_alike(c: ConductorModel, ch: usize)
    ensures
        alike(c, c.sample(ch).0),
        c.sample(ch).0.out_channels == c.out_channels,
{
    lemma_step_akin(c.voices, c.tempi, ch, c.out_channels);
    let a = mix_voices(c.voices, c.tempi, 0, ch, c.voices.len() as int);
    lemma_groups_akin(c.groups, c.tempi, a, ch, c.out_channels, c.groups.len() as int);
}

proof fn lemma_akin_trans(a: Seq<VoiceModel>, b: Seq<VoiceModel>, c: Seq<VoiceModel>)
    requires
        akin_voices(a, b),
        akin_voices(b, c),
    ensures
        akin_voices(a, c),
{
    assert forall|i: int| 0 <= i < a.len() implies akin_voice(#[trigger] a[i], c[i]) by {
        assert(akin_voice(a[i], b[i]));
        assert(akin_voice(b[i], c[i]));
        assert forall|k: int| 0 <= k < a[i].processes.len() implies akin_link(
            (#[trigger] a[i].processes[k]).link(),
            c[i].processes[k].link(),
        ) by {
            assert(akin_link(a[i].processes[k].link(), b[i].processes[k].link()));
            assert(akin_link(b[i].processes[k].link(), c[i].processes[k].link()));
        }
    }
}

proof fn lemma_alike_trans(c: ConductorModel, d: ConductorModel, e: ConductorModel)
    requires
        alike(c, d),
        alike(d, e),
    ensures
        alike(c, e),
{
    lemma_akin_trans(c.voices, d.voices, e.voices);
    assert forall|g: int| 0 <= g < c.groups.len() implies akin_voices(
        (#[trigger] c.groups[g]).voices,
        e.groups[g].voices,
    ) by {
        assert(akin_voices(c.groups[g].voices, d.groups[g].voices));
        assert(akin_voices(d.groups[g].voices, e.groups[g].voices));
        lemma_akin_trans(c.groups[g].voices, d.groups[g].voices, e.groups[g].voices);
    }
    assert forall|g: int| 0 <= g < c.groups.len() implies (#[trigger] e.groups[g]).state.tempo
        == c.groups[g].state.tempo by {
        assert(d.groups[g].state.tempo == c.groups[g].state.tempo);
    }
    assert forall|i: int| 0 <= i < c.tempo_cons.len() implies #[trigger] e.tempo_cons[i]
        == c.tempo_cons[i] by {
        assert(d.tempo_cons[i] == c.tempo_cons[i]);
    }
    assert forall|i: int| 0 <= i < c.tempi.len() implies akin(c.tempi[i], #[trigger] e.tempi[i]) by {
        assert(akin(c.tempi[i], d.tempi[i]));
        assert(akin(d.tempi[i], e.tempi[i]));
    }
}

proof fn lemma_channels_alike(c: ConductorModel, n: int)
    requires
        0 <= n,
    ensures
        alike(c, c.channels(n).0),
    decreases n,
{
    if n > 0 {
        lemma_channels_alike(c, n - 1);
        let d = c.channels(n - 1).0;
        lemma_sample_alike(d, (n - 1) as usize);
        lemma_alike_trans(c, d, d.sample((n - 1) as usize).0);
    } else {
        lemma_alike_refl(c);
    }
}

proof fn lemma_play_alike(c: ConductorModel, frames: int)
    requires
        0 <= frames,
    ensures
        alike(c, c.play(frames).0),
    decreases frames,
{
    if frames > 0 {
        lemma_play_alike(c, frames - 1);
        let d = c.play(frames - 1).0;
        lemma_channels_alike(d, d.out_channels as int);
        let e = d.channels(d.out_channels as int).0;
        let f = c.play(frames).0;
        lemma_alike_refl(e);
        assert(alike(e, f));
        lemma_alike_trans(d, e, f);
        lemma_alike_trans(c, d, f);
    } else {
        lemma_alike_refl(c);
    }
}

/// A new mirror describes a new engine of the same tracks, where each track
/// has a channel.
pub proof fn lemma_initial_coherent(m: MirrorView, c: ConductorModel)
    requires
        m.voices.len() == 0,
        m.groups.len() == 0,
        m.tempo_cons.len() == 0,
        c.voices.len() == 0,
        c.groups.len() == 0,
        c.tempo_cons.len() == 0,
        forall|t: int| 0 <= t < m.tracks.len() ==> (#[trigger] m.tracks[t]).item.idx < c.tracks.len(),
        forall|i: int| 0 <= i < c.tracks.len() ==> (#[trigger] c.tracks[i]).num_channels >= 1,
    ensures
        coherent(m, c),
{
}

} // verus!
