//! What holds of the engine whatever it plays and whatever it is told.

use vstd::prelude::*;
use crate::audio_processing::blast_time::{TempoMode, TempoState};
use crate::audio_processing::coherence::coherent;
use crate::audio_processing::commands::{CommandView, Idx};
use crate::audio_processing::dispatch::{Toggle, toggled_group, toggled_tempo, toggled_voice};
use crate::audio_processing::engine::{
    ConductorModel,
    GroupModel,
    VoiceModel,
    lemma_processes_keep_frame,
    lemma_run_groups_shape,
    run_processes,
    mix_voices,
    run_groups,
    spec_route,
    tick_voice,
};
use crate::audio_processing::fixed::Fixed;
use crate::audio_processing::grammar::{spec_try_load, spec_try_unload};
use crate::audio_processing::invariants::{lemma_absent, lemma_renumbered_same};
use crate::audio_processing::mirror::{MirrorView, lemma_index_of};
use crate::audio_processing::processes::idle;
use crate::audio_processing::text::spec_words;

verus! {

/// Groups advance tempi of groups and no others: through the first `n`
/// groups of a sample, a tempo in the table that is not of mode `Group`
/// stays as it is, and a tempo of mode `Group` stays one and never runs
/// backwards.
pub proof fn lemma_groups_advance_their_own(
    groups: Seq<GroupModel>,
    tempi: Seq<TempoState>,
    acc: i16,
    ch: usize,
    out_channels: usize,
    n: int,
    place: int,
)
    requires
        0 <= n <= groups.len(),
        0 <= place < tempi.len(),
    ensures
        run_groups(groups, tempi, acc, ch, out_channels, n).1.len() == tempi.len(),
        tempi[place].mode != TempoMode::Group ==> run_groups(
            groups,
            tempi,
            acc,
            ch,
            out_channels,
            n,
        ).1[place] == tempi[place],
        run_groups(groups, tempi, acc, ch, out_channels, n).1[place].mode == tempi[place].mode,
        run_groups(groups, tempi, acc, ch, out_channels, n).1[place].current
            >= tempi[place].current,
    decreases n,
{
    if n > 0 {
        lemma_groups_advance_their_own(groups, tempi, acc, ch, out_channels, n - 1, place);
        lemma_run_groups_shape(groups, tempi, acc, ch, out_channels, n - 1);
    }
}

/// Only its owner advances a tempo. In one sample of the engine, a voice's
/// own tempo changes as that voice alone says: it advances by one sample
/// where the voice plays and owns it, and else stays; no voice changes the
/// table; and in the table only tempi of mode `Group` change.
pub proof fn lemma_only_owner_advances(c: ConductorModel, ch: usize)
    ensures
        c.sample(ch).0.voices.len() == c.voices.len(),
        forall|i: int|
            0 <= i < c.voices.len() ==> (#[trigger] c.sample(ch).0.voices[i]).state.tempo == (
            if c.voices[i].state.active {
                tick_voice(c.voices[i].state).tempo
            } else {
                c.voices[i].state.tempo
            }),
        c.sample(ch).0.tempi.len() == c.tempi.len(),
        forall|place: int|
            0 <= place < c.tempi.len() && (#[trigger] c.tempi[place]).mode != TempoMode::Group
                ==> c.sample(ch).0.tempi[place] == c.tempi[place],
{
    assert forall|i: int| 0 <= i < c.voices.len() implies (
    #[trigger] c.sample(ch).0.voices[i]).state.tempo == (if c.voices[i].state.active {
        tick_voice(c.voices[i].state).tempo
    } else {
        c.voices[i].state.tempo
    }) by {
        let v = c.voices[i];
        let own = v.state.tempo.spec_resolve(idle(), c.tempi);
        lemma_processes_keep_frame(v.processes, v.state, own, c.tempi, v.processes.len() as int);
    }
    let a = mix_voices(
        c.voices,
        c.tempi,
        0,
        ch,
        c.voices.len() as int,
    );
    lemma_run_groups_shape(c.groups, c.tempi, a, ch, c.out_channels, c.groups.len() as int);
    assert forall|place: int|
        0 <= place < c.tempi.len() && (#[trigger] c.tempi[place]).mode
            != TempoMode::Group implies c.sample(ch).0.tempi[place] == c.tempi[place] by {
        lemma_groups_advance_their_own(
            c.groups,
            c.tempi,
            a,
            ch,
            c.out_channels,
            c.groups.len() as int,
            place,
        );
    }
}

/// After `stop` a voice stands at the start, which is the first frame when
/// it plays forwards and the last when it plays backwards, and the first
/// step of each of its processes is due.
pub proof fn lemma_stop_resets(v: VoiceModel)
    ensures
        !v.stopped().state.active,
        v.state.velocity.raw >= 0 ==> v.stopped().state.position.raw == 0,
        v.state.velocity.raw < 0 ==> v.stopped().state.position == Fixed::spec_from_usize(
            v.state.end,
        ),
        v.stopped().processes.len() == v.processes.len(),
        forall|i: int| 0 <= i < v.processes.len() ==> (#[trigger] v.stopped().processes[i]).due() == 0,
{
}

/// The mixer reads no sample that is not there: where a voice sounds, the
/// sample of its frame and the sample of the next frame are in the track.
pub proof fn lemma_reads_in_range(v: VoiceModel, ch: usize)
    requires
        v.wf(),
        v.sounds(ch),
    ensures
        0 <= v.frame() * v.channels + spec_route(v.channels, ch).unwrap(),
        (v.frame() + 1) * v.channels + spec_route(v.channels, ch).unwrap() < v.samples.len(),
{
    let i = v.frame();
    let n = v.channels as int;
    assert((i + 2) * n <= (v.state.end + 1) * n) by (nonlinear_arith)
        requires
            i + 2 <= v.state.end + 1,
            n >= 0,
    ;
    assert((i + 2) * n == (i + 1) * n + n) by (nonlinear_arith);
    assert(i * n >= 0) by (nonlinear_arith)
        requires
            i >= 0,
            n >= 0,
    ;
}

/// Channel routing. A mono voice adds the same to the first two output
/// channels and nothing to the others; any other voice adds nothing to an
/// output channel that it has no channel for, and to each other output
/// channel what its own channel of that number holds.
pub proof fn lemma_routing(v: VoiceModel, acc: i16, ch: usize)
    ensures
        v.channels == 1 ==> v.mix(acc, 0) == v.mix(acc, 1),
        v.channels == 1 && ch >= 2 ==> v.mix(acc, ch) == acc,
        v.channels != 1 && ch >= v.channels ==> v.mix(acc, ch) == acc,
        v.channels != 1 && ch < v.channels ==> spec_route(v.channels, ch) == Some(ch),
{
}

/// `load` and then `unload` of the same name leave the mirror and the
/// engine as they were.
pub proof fn lemma_load_unload(m: MirrorView, c: ConductorModel, args: Seq<char>)
    requires
        m.wf(),
        coherent(m, c),
        spec_try_load(m, args) is Done,
    ensures
        spec_try_unload(spec_try_load(m, args)->mirror, spec_words(args)[0]) is Done,
        spec_try_unload(spec_try_load(m, args)->mirror, spec_words(args)[0])->mirror == m,
        c.apply(spec_try_load(m, args)->cmd).apply(
            spec_try_unload(spec_try_load(m, args)->mirror, spec_words(args)[0])->cmd,
        ) == c,
{
    let name = spec_words(args)[0];
    let loaded = spec_try_load(m, args)->mirror;
    let n = m.voices.len() as int;
    lemma_absent(m.voices, name);
    lemma_index_of(loaded.voices, name, n);
    assert(loaded.voices.remove(n) =~= m.voices);
    lemma_renumbered_same(m.voices, m.groups.len(), m.tempo_cons.len());
    let d = c.apply(spec_try_load(m, args)->cmd);
    assert(d.voices.remove(n) =~= c.voices);
}

/// `pause` and then `resume` leave what played as it was: a voice, a group
/// or a tempo that was on is after both what it was before.
pub proof fn lemma_pause_resume(v: VoiceModel, g: GroupModel, t: TempoState)
    ensures
        v.state.active ==> toggled_voice(toggled_voice(v, Toggle::Pause), Toggle::Resume) == v,
        g.state.active ==> toggled_group(toggled_group(g, Toggle::Pause), Toggle::Resume) == g,
        t.active ==> toggled_tempo(toggled_tempo(t, Toggle::Pause), Toggle::Resume) == t,
{
}

/// Whether what `idx` addresses is switched on.
pub open spec fn plays(c: ConductorModel, idx: Idx) -> bool {
    match idx {
        Idx::Voice(_) => c.voice(idx).state.active,
        Idx::Member(_, _) => c.voice(idx).state.active,
        Idx::Group(g) => c.groups[g as int].state.active,
        Idx::Tempo(t) => c.tempo_cons[t as int] < c.tempi.len() ==> c.tempi[c.tempo_cons[t as int] as int].active,
        Idx::Process(_) => true,
    }
}

/// `pause` and then `resume` of what plays leave the engine as it was.
pub proof fn lemma_pause_resume_engine(c: ConductorModel, idx: Idx)
    requires
        c.has(idx),
        plays(c, idx),
    ensures
        c.apply(CommandView::Pause { idx }).apply(CommandView::Resume { idx }) == c,
{
    let d = c.toggle(idx, Toggle::Pause);
    let e = d.toggle(idx, Toggle::Resume);
    match idx {
        Idx::Voice(v) => {
            assert(e.voices =~= c.voices);
        },
        Idx::Member(g, v) => {
            assert(e.groups[g as int].voices =~= c.groups[g as int].voices);
            assert(e.groups =~= c.groups);
        },
        Idx::Group(g) => {
            assert(e.groups =~= c.groups);
        },
        Idx::Tempo(t) => {
            assert(e.tempi =~= c.tempi);
        },
        Idx::Process(_) => {},
    }
}

/// A voice after the first `n` output channels of one frame.
pub open spec fn after_channels(
    v: VoiceModel,
    tempi: Seq<TempoState>,
    out_channels: usize,
    n: int,
) -> VoiceModel
    decreases n,
{
    if n <= 0 {
        v
    } else {
        after_channels(v, tempi, out_channels, n - 1).step(tempi, (n - 1) as usize, out_channels)
    }
}

/// A voice after `k` frames of `out_channels` channels each.
pub open spec fn after_frames(
    v: VoiceModel,
    tempi: Seq<TempoState>,
    out_channels: usize,
    k: int,
) -> VoiceModel
    decreases k,
{
    if k <= 0 {
        v
    } else {
        after_channels(
            after_frames(v, tempi, out_channels, k - 1),
            tempi,
            out_channels,
            out_channels as int,
        )
    }
}

/// Whether the processes of the voice leave it where it is on this sample:
/// none of them retriggers it to another position. A voice without processes
/// is quiet, and so is one whose sequencers have no step due or do not hit.
pub open spec fn quiet(v: VoiceModel, tempi: Seq<TempoState>) -> bool {
    run_processes(
        v.processes,
        v.state,
        v.state.tempo.spec_resolve(idle(), tempi),
        tempi,
        v.processes.len() as int,
    ).1 == v.state
}

/// Whether the voice is quiet on each of the first `n` channels of a frame.
pub open spec fn quiet_channels(
    v: VoiceModel,
    tempi: Seq<TempoState>,
    out_channels: usize,
    n: int,
) -> bool {
    forall|m: int| 0 <= m < n ==> quiet(#[trigger] after_channels(v, tempi, out_channels, m), tempi)
}

/// Whether the voice is quiet on every channel of each of the first `k`
/// frames.
pub open spec fn quiet_frames(
    v: VoiceModel,
    tempi: Seq<TempoState>,
    out_channels: usize,
    k: int,
) -> bool {
    forall|j: int|
        0 <= j < k ==> quiet_channels(
            #[trigger] after_frames(v, tempi, out_channels, j),
            tempi,
            out_channels,
            out_channels as int,
        )
}

/// A voice without processes is quiet, and stays without processes.
pub proof fn lemma_without_processes_quiet(
    v: VoiceModel,
    tempi: Seq<TempoState>,
    out_channels: usize,
    k: int,
)
    requires
        v.processes.len() == 0,
        0 <= k,
    ensures
        quiet_frames(v, tempi, out_channels, k),
        after_frames(v, tempi, out_channels, k).processes.len() == 0,
    decreases k,
{
    if k > 0 {
        lemma_without_processes_quiet(v, tempi, out_channels, k - 1);
        let w = after_frames(v, tempi, out_channels, k - 1);
        lemma_without_processes_quiet_channels(w, tempi, out_channels, out_channels as int);
        assert forall|j: int| 0 <= j < k implies quiet_channels(
            #[trigger] after_frames(v, tempi, out_channels, j),
            tempi,
            out_channels,
            out_channels as int,
        ) by {
            if j < k - 1 {
                assert(quiet_frames(v, tempi, out_channels, k - 1));
            }
        }
    }
}

/// A voice without processes is quiet on every channel of a frame.
pub proof fn lemma_without_processes_quiet_channels(
    v: VoiceModel,
    tempi: Seq<TempoState>,
    out_channels: usize,
    n: int,
)
    requires
        v.processes.len() == 0,
        0 <= n,
    ensures
        quiet_channels(v, tempi, out_channels, n),
        after_channels(v, tempi, out_channels, n).processes.len() == 0,
    decreases n,
{
    if n > 0 {
        lemma_without_processes_quiet_channels(v, tempi, out_channels, n - 1);
        assert forall|m: int| 0 <= m < n implies quiet(
            #[trigger] after_channels(v, tempi, out_channels, m),
            tempi,
        ) by {
            lemma_without_processes_quiet_channels(v, tempi, out_channels, m);
        }
    }
}

/// A voice that is quiet keeps its position, velocity and gain through the
/// channels of a frame up to the last.
pub proof fn lemma_position_in_frame(
    v: VoiceModel,
    tempi: Seq<TempoState>,
    out_channels: usize,
    n: int,
)
    requires
        quiet_channels(v, tempi, out_channels, n),
        0 <= n < out_channels,
    ensures
        after_channels(v, tempi, out_channels, n).state.position == v.state.position,
        after_channels(v, tempi, out_channels, n).state.velocity == v.state.velocity,
        after_channels(v, tempi, out_channels, n).state.gain == v.state.gain,
        after_channels(v, tempi, out_channels, n).state.end == v.state.end,
        after_channels(v, tempi, out_channels, n).state.active == v.state.active,
        after_channels(v, tempi, out_channels, n).samples == v.samples,
        after_channels(v, tempi, out_channels, n).channels == v.channels,
    decreases n,
{
    if n > 0 {
        lemma_position_in_frame(v, tempi, out_channels, n - 1);
        assert(quiet(after_channels(v, tempi, out_channels, n - 1), tempi));
    }
}

/// A voice that plays and is quiet moves on by its velocity once in every
/// frame, on the frame's last channel.
pub proof fn lemma_position_after_frame(v: VoiceModel, tempi: Seq<TempoState>, out_channels: usize)
    requires
        quiet_channels(v, tempi, out_channels, out_channels as int),
        v.state.active,
        out_channels >= 1,
    ensures
        after_channels(v, tempi, out_channels, out_channels as int).state.position
            == v.state.position.spec_saturating_add(v.state.velocity),
        after_channels(v, tempi, out_channels, out_channels as int).state.velocity
            == v.state.velocity,
        after_channels(v, tempi, out_channels, out_channels as int).state.gain == v.state.gain,
        after_channels(v, tempi, out_channels, out_channels as int).state.end == v.state.end,
        after_channels(v, tempi, out_channels, out_channels as int).state.active,
        after_channels(v, tempi, out_channels, out_channels as int).samples == v.samples,
        after_channels(v, tempi, out_channels, out_channels as int).channels == v.channels,
{
    lemma_position_in_frame(v, tempi, out_channels, out_channels - 1);
    assert(quiet(after_channels(v, tempi, out_channels, out_channels - 1), tempi));
}

/// Playing. A voice that plays and is quiet stands, after `k` frames, `k`
/// times its velocity from where it stood, as long as that is in range: at
/// velocity one it is at frame `k` after `k` frames from the start, and at
/// velocity minus one it is `k` frames before the end after `k` frames from
/// the end.
pub proof fn lemma_position_after_frames(
    v: VoiceModel,
    tempi: Seq<TempoState>,
    out_channels: usize,
    k: int,
)
    requires
        quiet_frames(v, tempi, out_channels, k),
        v.state.active,
        out_channels >= 1,
        0 <= k,
        i64::MIN <= v.state.position.raw + k * v.state.velocity.raw <= i64::MAX,
    ensures
        after_frames(v, tempi, out_channels, k).state.position.raw == v.state.position.raw + k
            * v.state.velocity.raw,
        after_frames(v, tempi, out_channels, k).state.velocity == v.state.velocity,
        after_frames(v, tempi, out_channels, k).state.gain == v.state.gain,
        after_frames(v, tempi, out_channels, k).state.end == v.state.end,
        after_frames(v, tempi, out_channels, k).state.active,
        after_frames(v, tempi, out_channels, k).samples == v.samples,
        after_frames(v, tempi, out_channels, k).channels == v.channels,
    decreases k,
{
    if k > 0 {
        let p = v.state.position.raw as int;
        let w = v.state.velocity.raw as int;
        assert(i64::MIN <= p + (k - 1) * w <= i64::MAX) by (nonlinear_arith)
            requires
                i64::MIN <= p <= i64::MAX,
                i64::MIN <= p + k * w <= i64::MAX,
                k >= 1,
        ;
        assert(quiet_frames(v, tempi, out_channels, k - 1));
        lemma_position_after_frames(v, tempi, out_channels, k - 1);
        let before = after_frames(v, tempi, out_channels, k - 1);
        assert(quiet_channels(before, tempi, out_channels, out_channels as int));
        lemma_position_after_frame(before, tempi, out_channels);
        assert(p + (k - 1) * w + w == p + k * w) by (nonlinear_arith);
    } else {
        assert(k * v.state.velocity.raw == 0) by (nonlinear_arith)
            requires
                k == 0,
        ;
    }
}

/// A voice that is quiet and whose position is not from the first frame up
/// to, not including, the last adds nothing, whatever the channel.
pub proof fn lemma_silent_outside(v: VoiceModel, tempi: Seq<TempoState>, acc: i16, ch: usize)
    requires
        quiet(v, tempi),
        !(0 <= v.frame() < v.state.end),
    ensures
        v.output(tempi, acc, ch) == acc,
{
}

/// Channel routing beyond the second channel: a mono or a stereo voice that
/// is quiet adds nothing to an output channel from the third on, and on
/// such a channel it stays where it is unless the channel is the frame's
/// last.
pub proof fn lemma_further_channels(
    v: VoiceModel,
    tempi: Seq<TempoState>,
    out_channels: usize,
    acc: i16,
    ch: usize,
)
    requires
        v.channels == 1 || v.channels == 2,
        quiet(v, tempi),
        2 <= ch,
    ensures
        v.output(tempi, acc, ch) == acc,
        ch + 1 != out_channels ==> v.step(tempi, ch, out_channels).state.position
            == v.state.position,
{
}

/// Channel routing within a frame, for a mono voice that plays into at least
/// two output channels and is quiet: it adds to the second channel what it
/// adds to the first, and to every further channel nothing; and up to the
/// frame's last channel its position stays.
pub proof fn lemma_mono_frame(
    v: VoiceModel,
    tempi: Seq<TempoState>,
    out_channels: usize,
    acc: i16,
    ch: usize,
)
    requires
        v.channels == 1,
        quiet_channels(v, tempi, out_channels, out_channels as int),
        v.state.active,
        out_channels >= 2,
        2 <= ch,
    ensures
        after_channels(v, tempi, out_channels, 1).output(tempi, acc, 1) == v.output(tempi, acc, 0),
        v.output(tempi, acc, 0) == v.mix(acc, 0),
        ch < out_channels ==> after_channels(v, tempi, out_channels, ch as int).output(
            tempi,
            acc,
            ch,
        ) == acc,
        ch + 1 < out_channels ==> after_channels(
            v,
            tempi,
            out_channels,
            ch + 1,
        ).state.position == v.state.position,
{
    lemma_position_in_frame(v, tempi, out_channels, 1);
    assert(quiet(after_channels(v, tempi, out_channels, 0), tempi));
    assert(quiet(after_channels(v, tempi, out_channels, 1), tempi));
    if ch < out_channels {
        lemma_position_in_frame(v, tempi, out_channels, ch as int);
        assert(quiet(after_channels(v, tempi, out_channels, ch as int), tempi));
    }
    if ch + 1 < out_channels {
        lemma_position_in_frame(v, tempi, out_channels, ch + 1);
    }
}

/// Channel routing within a frame, for a stereo voice at velocity and gain
/// one that is quiet and whose position is at a frame that sounds: it adds
/// the frame's first sample to the first output channel and its second to
/// the second, each once, and nothing to any further channel; and with two
/// output channels it moves on by one frame, after the second.
pub proof fn lemma_stereo_frame(
    v: VoiceModel,
    tempi: Seq<TempoState>,
    out_channels: usize,
    ch: usize,
)
    requires
        v.wf(),
        v.channels == 2,
        quiet_channels(v, tempi, out_channels, out_channels as int),
        v.state.active,
        v.state.velocity.raw == 65536,
        v.state.gain.raw == 65536,
        0 <= v.frame() < v.state.end,
        out_channels >= 2,
        2 <= ch < out_channels,
    ensures
        v.output(tempi, 0, 0) == v.samples[2 * v.frame()],
        after_channels(v, tempi, out_channels, 1).output(tempi, 0, 1) == v.samples[2 * v.frame()
            + 1],
        after_channels(v, tempi, out_channels, ch as int).output(tempi, 0, ch) == 0,
        out_channels == 2 ==> after_channels(v, tempi, out_channels, 2).state.position
            == v.state.position.spec_saturating_add(v.state.velocity),
{
    lemma_position_in_frame(v, tempi, out_channels, 1);
    lemma_position_in_frame(v, tempi, out_channels, ch as int);
    lemma_position_after_frame(v, tempi, out_channels);
    assert(quiet(after_channels(v, tempi, out_channels, 0), tempi));
    assert(quiet(after_channels(v, tempi, out_channels, 1), tempi));
    assert(quiet(after_channels(v, tempi, out_channels, ch as int), tempi));
    lemma_reads_in_range(v, 0);
    lemma_reads_in_range(v, 1);
    let i = v.frame();
    let a = v.samples[2 * i] as int;
    let b = v.samples[2 * i + 1] as int;
    assert(i * 2 == 2 * i);
    assert((a * 65536) * 65536 / 0x1_0000_0000 == a) by (nonlinear_arith);
    assert(-((-(a * 65536) * 65536) / 0x1_0000_0000) == a) by (nonlinear_arith);
    assert((b * 65536) * 65536 / 0x1_0000_0000 == b) by (nonlinear_arith);
    assert(-((-(b * 65536) * 65536) / 0x1_0000_0000) == b) by (nonlinear_arith);
    let w = after_channels(v, tempi, out_channels, 1);
    assert(w.frame() == i);
}

} // verus!
