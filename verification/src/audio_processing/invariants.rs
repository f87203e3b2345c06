//! The mirror stays in order: whatever line is read, every list of the
//! mirror still has each name once and each entry at its own `idx`, and
//! every tempo still refers to something that there is.

use vstd::prelude::*;
use crate::audio_processing::blast_time::TempoMode;
use crate::audio_processing::commands::{Idx, TempoRepr};
use crate::audio_processing::grammar::{
    GroupOpts,
    Outcome,
    SeqOpts,
    TempoRules,
    args_of,
    attached,
    default_group_tempo,
    group_rules,
    hundred,
    load_rules,
    member,
    resized,
    seq_rules,
    spec_chances,
    spec_find_voice,
    spec_group_opts,
    spec_load_opts,
    spec_numbers,
    spec_parse,
    spec_resolve,
    spec_seq_opts,
    spec_tempo,
    spec_try_group,
    spec_try_load,
    spec_try_seq,
    spec_try_tc,
    spec_try_unload,
    spec_unit,
    tc_rules,
    voice_at,
};
use crate::audio_processing::lists::{distinct_in, lemma_without_member, without, lemma_places_among, places_among};
use crate::audio_processing::mirror::{
    MirrorView,
    NamedView,
    VoiceView,
    distinct_names,
    group_tempo_ok,
    has_name,
    index_of,
    lemma_index_of_is_first,
    ref_ok,
    renumbered,
    voice_ok,
    voice_tempo_ok,
    voices_ok,
};
use crate::audio_processing::text::{
    lemma_split_len,
    reveal_unit_letters,
    spec_parse_usize,
    spec_split,
    spec_words,
};

verus! {

/// What holds of more groups and contexts holds of fewer.
pub proof fn lemma_voices_ok_grow(
    s: Seq<NamedView<VoiceView>>,
    groups: nat,
    contexts: nat,
    more_groups: nat,
    more_contexts: nat,
)
    requires
        voices_ok(s, groups, contexts),
        groups <= more_groups,
        contexts <= more_contexts,
    ensures
        voices_ok(s, more_groups, more_contexts),
{
    assert forall|i: int| 0 <= i < s.len() implies (#[trigger] s[i]).item.idx == i && voice_ok(
        s[i].item,
        more_groups,
        more_contexts,
    ) by {
        assert(voice_ok(s[i].item, groups, contexts));
    }
}

/// A name that a list does not have is the name of none of its entries.
pub proof fn lemma_absent<V>(s: Seq<NamedView<V>>, name: Seq<char>)
    requires
        !has_name(s, name),
    ensures
        forall|i: int| 0 <= i < s.len() ==> (#[trigger] s[i]).name != name,
{
    lemma_index_of_is_first(s, name);
}

/// The voice that a name means is one that the mirror has.
pub proof fn lemma_find_voice(m: MirrorView, name: Seq<char>)
    requires
        m.bounded(),
    ensures
        match spec_find_voice(m, name) {
            Ok(Idx::Voice(v)) => v < m.voices.len(),
            Ok(Idx::Member(g, v)) => g < m.groups.len() && v < m.groups[g as int].item.voices.len(),
            Ok(_) => false,
            Err(_) => true,
        },
{
    let parts = spec_split(name, '.');
    lemma_split_len(name, '.');
    lemma_index_of_is_first(m.voices, parts[0]);
    lemma_index_of_is_first(m.groups, parts[0]);
    if parts.len() == 2 && has_name(m.groups, parts[0]) {
        let g = index_of(m.groups, parts[0]);
        lemma_index_of_is_first(m.groups[g as int].item.voices, parts[1]);
    }
}

/// A tempo that `-t` gives is a new one as the rules say, or refers to
/// something that there is.
pub proof fn lemma_tempo(m: MirrorView, tok: Seq<char>, rules: TempoRules)
    requires
        m.wf(),
        rules.voice.is_some() ==> voice_tempo_ok(
            rules.voice.unwrap(),
            m.groups.len(),
            m.tempo_cons.len(),
        ),
    ensures
        match spec_tempo(m, tok, rules) {
            Ok(t) => if t.owned {
                t.mode == rules.mode && t.idx == rules.idx && t.interval.raw > 0
            } else {
                &&& ref_ok(t, m.groups.len(), m.tempo_cons.len())
                &&& rules.voice.is_none() ==> t.mode == TempoMode::Group || t.mode
                    == TempoMode::Context
                &&& rules.voice.is_none() && !rules.groups ==> t.mode == TempoMode::Context
            },
            Err(_) => true,
        },
{
    let parts = spec_split(tok, ':');
    if parts.len() == 2 {
        lemma_index_of_is_first(m.tempo_cons, parts[1]);
        lemma_index_of_is_first(m.groups, parts[1]);
        if has_name(m.tempo_cons, parts[1]) {
            let c = index_of(m.tempo_cons, parts[1]) as int;
            assert(m.tempo_cons[c].item.idx == c);
        }
        if has_name(m.groups, parts[1]) {
            let g = index_of(m.groups, parts[1]) as int;
            assert(m.groups[g].item.idx == g);
            assert(group_tempo_ok(m.groups[g].item.tempo, g, m.tempo_cons.len()));
        }
    }
}

/// The tempo that the options of `load` leave is one that a voice can have.
pub proof fn lemma_load_opts(m: MirrorView, w: Seq<Seq<char>>, i: int, tempo: TempoRepr)
    requires
        m.wf(),
        voice_tempo_ok(tempo, m.groups.len(), m.tempo_cons.len()),
    ensures
        spec_load_opts(m, w, i, tempo) matches Ok(t) ==> voice_tempo_ok(
            t,
            m.groups.len(),
            m.tempo_cons.len(),
        ),
    decreases w.len() - i,
{
    if i >= w.len() || i < 0 {
    } else if w[i] == "-t"@ || w[i] == "--tempo"@ {
        if i + 1 < w.len() {
            lemma_tempo(m, w[i + 1], load_rules());
            match spec_tempo(m, w[i + 1], load_rules()) {
                Ok(t) => lemma_load_opts(m, w, i + 2, t),
                Err(_) => {},
            }
        }
    }
}

/// The tempo that the options of `group` leave is one that the new group can
/// have.
pub proof fn lemma_group_opts(m: MirrorView, w: Seq<Seq<char>>, i: int, acc: GroupOpts)
    requires
        m.wf(),
        group_tempo_ok(acc.tempo, m.groups.len() as int, m.tempo_cons.len()),
    ensures
        spec_group_opts(m, w, i, acc) matches Ok(o) ==> group_tempo_ok(
            o.tempo,
            m.groups.len() as int,
            m.tempo_cons.len(),
        ),
    decreases w.len() - i,
{
    if i >= w.len() || i < 0 {
    } else if w[i] == "-t"@ || w[i] == "--tempo"@ {
        if i + 1 < w.len() {
            lemma_tempo(m, w[i + 1], group_rules(m));
            match spec_tempo(m, w[i + 1], group_rules(m)) {
                Ok(tempo) => lemma_group_opts(m, w, i + 2, GroupOpts { tempo, ..acc }),
                Err(_) => {},
            }
        }
    } else if w[i] == "-v"@ || w[i] == "--voices"@ {
        if i + 1 < w.len() {
            lemma_group_opts(
                m,
                w,
                i + 2,
                GroupOpts { names: acc.names + spec_split(w[i + 1], ','), ..acc },
            );
        }
    }
}

/// The places that names resolve to are the places of those names, each in
/// range and none twice.
pub proof fn lemma_resolve(
    voices: Seq<NamedView<VoiceView>>,
    names: Seq<Seq<char>>,
    k: int,
    ids: Seq<usize>,
)
    requires
        0 <= k,
        distinct_in(ids, voices.len()),
    ensures
        spec_resolve(voices, names, k, ids) matches Ok(r) ==> distinct_in(r, voices.len()),
    decreases names.len() - k,
{
    if k >= names.len() {
    } else if !has_name(voices, names[k]) || ids.contains(index_of(voices, names[k]) as usize) {
    } else {
        let at = index_of(voices, names[k]) as usize;
        let next = ids.push(at);
        assert forall|i: int, j: int| 0 <= i < j < next.len() implies next[i] != next[j] by {
            if j == ids.len() {
                assert(ids[i] != at);
            }
        }
        lemma_resolve(voices, names, k + 1, next);
    }
}

/// The tempo that the options of `seq` leave is one that a process can have.
pub proof fn lemma_seq_opts(m: MirrorView, voice: VoiceView, w: Seq<Seq<char>>, i: int, acc: SeqOpts)
    requires
        m.wf(),
        voice_tempo_ok(voice.tempo, m.groups.len(), m.tempo_cons.len()),
        ref_ok(acc.tempo, m.groups.len(), m.tempo_cons.len()),
    ensures
        spec_seq_opts(m, voice, w, i, acc) matches Ok(o) ==> ref_ok(
            o.tempo,
            m.groups.len(),
            m.tempo_cons.len(),
        ),
    decreases w.len() - i,
{
    if i >= w.len() || i < 0 {
    } else if i + 1 < w.len() {
        if w[i] == "-t"@ || w[i] == "--tempo"@ {
            lemma_tempo(m, w[i + 1], seq_rules(voice));
            match spec_tempo(m, w[i + 1], seq_rules(voice)) {
                Ok(tempo) => lemma_seq_opts(m, voice, w, i + 2, SeqOpts { tempo, ..acc }),
                Err(_) => {},
            }
        } else if w[i] == "-p"@ || w[i] == "--period"@ {
            match spec_parse_usize(w[i + 1]) {
                Some(period) => lemma_seq_opts(m, voice, w, i + 2, SeqOpts { period, ..acc }),
                None => {},
            }
        } else if w[i] == "-s"@ || w[i] == "--steps"@ {
            match spec_numbers(spec_split(w[i + 1], ','), 0, acc.steps) {
                Ok(steps) => lemma_seq_opts(
                    m,
                    voice,
                    w,
                    i + 2,
                    SeqOpts {
                        steps,
                        chance: resized(acc.chance, steps.len(), hundred()),
                        jit: resized(acc.jit, steps.len(), hundred()),
                        ..acc
                    },
                ),
                Err(_) => {},
            }
        } else if w[i] == "-c"@ || w[i] == "--chance"@ {
            if acc.steps.len() >= 1 {
                match spec_chances(acc.steps, acc.chance, spec_split(w[i + 1], ','), 0) {
                    Ok(chance) => lemma_seq_opts(m, voice, w, i + 2, SeqOpts { chance, ..acc }),
                    Err(_) => {},
                }
            }
        } else if w[i] == "-j"@ || w[i] == "--jitter"@ {
            if acc.steps.len() >= 1 {
                lemma_seq_opts(m, voice, w, i + 2, acc);
            }
        }
    }
}

/// Names that occur once still occur once when positions are taken out.
pub proof fn lemma_without_distinct<V>(s: Seq<NamedView<V>>, ids: Seq<usize>)
    requires
        distinct_names(s),
    ensures
        distinct_names(without(s, ids)),
    decreases s.len(),
{
    if s.len() > 0 {
        let before = s.drop_last();
        assert(distinct_names(before)) by {
            assert forall|i: int, j: int| 0 <= i < j < before.len() implies (
            #[trigger] before[i]).name != (#[trigger] before[j]).name by {
                assert(s[i].name != s[j].name);
            }
        }
        lemma_without_distinct(before, ids);
        let rest = without(before, ids);
        let all = without(s, ids);
        if !ids.contains((s.len() - 1) as usize) {
            assert forall|i: int, j: int| 0 <= i < j < all.len() implies (#[trigger] all[i]).name
                != (#[trigger] all[j]).name by {
                if j == rest.len() {
                    let at = lemma_without_member(before, ids, i);
                    assert(s[at].name != s[s.len() - 1].name);
                } else {
                    assert(rest[i].name != rest[j].name);
                }
            }
        }
    }
}

/// Voices that are in order are so again once positions are taken out and
/// the rest is numbered anew.
pub proof fn lemma_without_voices_ok(
    s: Seq<NamedView<VoiceView>>,
    ids: Seq<usize>,
    groups: nat,
    contexts: nat,
)
    requires
        voices_ok(s, groups, contexts),
    ensures
        voices_ok(renumbered(without(s, ids)), groups, contexts),
{
    lemma_without_distinct(s, ids);
    let kept = without(s, ids);
    let r = renumbered(kept);
    assert forall|i: int| 0 <= i < r.len() implies (#[trigger] r[i]).item.idx == i && voice_ok(
        r[i].item,
        groups,
        contexts,
    ) by {
        let at = lemma_without_member(s, ids, i);
        assert(voice_ok(s[at].item, groups, contexts));
    }
    assert forall|i: int, j: int| 0 <= i < j < r.len() implies (#[trigger] r[i]).name != (
    #[trigger] r[j]).name by {
        assert(kept[i].name != kept[j].name);
    }
}

/// A list that is in order is what it is numbered as.
pub proof fn lemma_renumbered_same(s: Seq<NamedView<VoiceView>>, groups: nat, contexts: nat)
    requires
        voices_ok(s, groups, contexts),
    ensures
        renumbered(s) == s,
{
    assert(renumbered(s) =~= s);
}

/// `load` keeps the mirror in order.
pub proof fn lemma_load_wf(m: MirrorView, args: Seq<char>)
    requires
        m.wf(),
    ensures
        spec_try_load(m, args) matches Outcome::Done { cmd, mirror } ==> (mirror.bounded()
            ==> mirror.wf()),
{
    let w = spec_words(args);
    if w.len() > 0 {
        lemma_load_opts(m, w, 1, TempoRepr::spec_new(0));
        match spec_try_load(m, args) {
            Outcome::Done { cmd, mirror } => {
                lemma_absent(m.voices, w[0]);
                let s = mirror.voices;
                assert forall|i: int, j: int| 0 <= i < j < s.len() implies (#[trigger] s[i]).name
                    != (#[trigger] s[j]).name by {
                    if j < m.voices.len() {
                        assert(m.voices[i].name != m.voices[j].name);
                    } else {
                        assert(m.voices[i].name != w[0]);
                    }
                }
                assert forall|i: int| 0 <= i < s.len() implies (#[trigger] s[i]).item.idx == i
                    && voice_ok(s[i].item, m.groups.len(), m.tempo_cons.len()) by {
                    if i < m.voices.len() {
                        assert(voice_ok(m.voices[i].item, m.groups.len(), m.tempo_cons.len()));
                    }
                }
            },
            _ => {},
        }
    }
}

/// `unload` keeps the mirror in order.
pub proof fn lemma_unload_wf(m: MirrorView, name: Seq<char>)
    requires
        m.wf(),
    ensures
        spec_try_unload(m, name) matches Outcome::Done { cmd, mirror } ==> mirror.wf(),
{
    if has_name(m.voices, name) {
        let at = index_of(m.voices, name) as int;
        let cut = m.voices.remove(at);
        let s = renumbered(cut);
        assert forall|i: int, j: int| 0 <= i < j < s.len() implies (#[trigger] s[i]).name != (
        #[trigger] s[j]).name by {
            let a = if i < at { i } else { i + 1 };
            let b = if j < at { j } else { j + 1 };
            assert(m.voices[a].name != m.voices[b].name);
        }
        assert forall|i: int| 0 <= i < s.len() implies (#[trigger] s[i]).item.idx == i && voice_ok(
            s[i].item,
            m.groups.len(),
            m.tempo_cons.len(),
        ) by {
            let a = if i < at { i } else { i + 1 };
            assert(voice_ok(m.voices[a].item, m.groups.len(), m.tempo_cons.len()));
        }
    }
}

/// `tc` keeps the mirror in order.
pub proof fn lemma_tc_wf(m: MirrorView, args: Seq<char>)
    requires
        m.wf(),
    ensures
        spec_try_tc(m, args) matches Outcome::Done { cmd, mirror } ==> (mirror.bounded()
            ==> mirror.wf()),
{
    let w = spec_words(args);
    match spec_try_tc(m, args) {
        Outcome::Done { cmd, mirror } => {
            lemma_tempo(m, w[1], tc_rules(m));
            lemma_absent(m.tempo_cons, w[0]);
            let s = mirror.tempo_cons;
            let t = s[m.tempo_cons.len() as int].item;
            assert(t.owned) by {
                let parts = spec_split(w[1], ':');
                assert(spec_unit(parts[0]).is_some());
                reveal_unit_letters();
            }
            assert forall|i: int, j: int| 0 <= i < j < s.len() implies (#[trigger] s[i]).name != (
            #[trigger] s[j]).name by {
                if j < m.tempo_cons.len() {
                    assert(m.tempo_cons[i].name != m.tempo_cons[j].name);
                } else {
                    assert(m.tempo_cons[i].name != w[0]);
                }
            }
            assert forall|c: int| 0 <= c < s.len() implies (#[trigger] s[c]).item.idx == c
                && s[c].item.mode == TempoMode::Context && s[c].item.owned by {
                if c < m.tempo_cons.len() {
                    assert(m.tempo_cons[c].item.idx == c);
                }
            }
            lemma_voices_ok_grow(
                m.voices,
                m.groups.len(),
                m.tempo_cons.len(),
                m.groups.len(),
                s.len(),
            );
            assert forall|g: int| 0 <= g < mirror.groups.len() implies (
            #[trigger] mirror.groups[g]).item.idx == g && group_tempo_ok(
                mirror.groups[g].item.tempo,
                g,
                mirror.tempo_cons.len(),
            ) && voices_ok(
                mirror.groups[g].item.voices,
                mirror.groups.len(),
                mirror.tempo_cons.len(),
            ) by {
                assert(m.groups[g].item.idx == g);
                lemma_voices_ok_grow(
                    m.groups[g].item.voices,
                    m.groups.len(),
                    m.tempo_cons.len(),
                    m.groups.len(),
                    s.len(),
                );
            }
        },
        _ => {},
    }
}

/// A voice that joins a group whose tempo is in order is in order.
pub proof fn lemma_member_ok(
    v: NamedView<VoiceView>,
    slot: int,
    tempo: TempoRepr,
    groups: nat,
    contexts: nat,
)
    requires
        voice_ok(v.item, groups, contexts),
        group_tempo_ok(tempo, groups as int, contexts),
    ensures
        voice_ok(member(v, slot, tempo).item, groups + 1, contexts),
        member(v, slot, tempo).name == v.name,
        member(v, slot, tempo).item.idx == slot as usize,
        member(v, slot, tempo).item.processes.len() == v.item.processes.len(),
{
    let r = member(v, slot, tempo).item;
    assert forall|k: int| 0 <= k < r.processes.len() implies (#[trigger] r.processes[k]).idx == k by {
        assert(v.item.processes[k].idx == k);
    }
    assert forall|k: int|
        0 <= k < r.processes.len() && (#[trigger] r.processes[k]).tempo.is_some() implies ref_ok(
        r.processes[k].tempo.unwrap(),
        groups + 1,
        contexts,
    ) by {
        if v.item.processes[k].tempo.is_some() {
            assert(ref_ok(v.item.processes[k].tempo.unwrap(), groups, contexts));
        }
    }
}

/// `group` keeps the mirror in order.
pub proof fn lemma_group_wf(m: MirrorView, args: Seq<char>)
    requires
        m.wf(),
    ensures
        spec_try_group(m, args) matches Outcome::Done { cmd, mirror } ==> (mirror.bounded()
            ==> mirror.wf()),
{
    let w = spec_words(args);
    match spec_try_group(m, args) {
        Outcome::Done { cmd, mirror } => {
            if mirror.bounded() {
                let start = GroupOpts {
                    tempo: default_group_tempo(m.groups.len() as usize),
                    names: Seq::empty(),
                };
                lemma_group_opts(m, w, 1, start);
                let opts = spec_group_opts(m, w, 1, start)->Ok_0;
                lemma_resolve(m.voices, opts.names, 0, Seq::empty());
                let ids = spec_resolve(m.voices, opts.names, 0, Seq::empty())->Ok_0;
                let groups = m.groups.len();
                let contexts = m.tempo_cons.len();
                lemma_without_voices_ok(m.voices, ids, groups, contexts);
                lemma_voices_ok_grow(mirror.voices, groups, contexts, groups + 1, contexts);
                lemma_absent(m.groups, w[0]);
                let s = mirror.groups;
                assert forall|i: int, j: int| 0 <= i < j < s.len() implies (#[trigger] s[i]).name
                    != (#[trigger] s[j]).name by {
                    if j < groups {
                        assert(m.groups[i].name != m.groups[j].name);
                    } else {
                        assert(m.groups[i].name != w[0]);
                    }
                }
                let members = s[groups as int].item.voices;
                assert forall|i: int, j: int| 0 <= i < j < members.len() implies (
                #[trigger] members[i]).name != (#[trigger] members[j]).name by {
                    let a = ids[i] as int;
                    let b = ids[j] as int;
                    assert(a != b);
                    if a < b {
                        assert(m.voices[a].name != m.voices[b].name);
                    } else {
                        assert(m.voices[b].name != m.voices[a].name);
                    }
                }
                assert forall|i: int| 0 <= i < members.len() implies (
                #[trigger] members[i]).item.idx == i && voice_ok(
                    members[i].item,
                    groups + 1,
                    contexts,
                ) by {
                    assert(voice_ok(m.voices[ids[i] as int].item, groups, contexts));
                    lemma_member_ok(m.voices[ids[i] as int], i, opts.tempo, groups, contexts);
                }
                assert forall|g: int| 0 <= g < s.len() implies (#[trigger] s[g]).item.idx == g
                    && group_tempo_ok(s[g].item.tempo, g, contexts) && voices_ok(
                    s[g].item.voices,
                    s.len(),
                    contexts,
                ) by {
                    if g < groups {
                        assert(m.groups[g].item.idx == g);
                        lemma_voices_ok_grow(
                            m.groups[g].item.voices,
                            groups,
                            contexts,
                            groups + 1,
                            contexts,
                        );
                    }
                }
            }
        },
        _ => {},
    }
}

/// A voice with one more process, whose tempo is in order, is in order.
pub proof fn lemma_attached_ok(v: VoiceView, tempo: TempoRepr, groups: nat, contexts: nat)
    requires
        voice_ok(v, groups, contexts),
        ref_ok(tempo, groups, contexts),
        v.processes.len() < usize::MAX,
    ensures
        voice_ok(attached(v, tempo), groups, contexts),
        attached(v, tempo).idx == v.idx,
{
    let r = attached(v, tempo);
    assert forall|k: int| 0 <= k < r.processes.len() implies (#[trigger] r.processes[k]).idx == k by {
        if k < v.processes.len() {
            assert(v.processes[k].idx == k);
        }
    }
    assert forall|k: int|
        0 <= k < r.processes.len() && (#[trigger] r.processes[k]).tempo.is_some() implies ref_ok(
        r.processes[k].tempo.unwrap(),
        groups,
        contexts,
    ) by {
        if k < v.processes.len() {
            assert(r.processes[k] == v.processes[k]);
        }
    }
}

/// `seq` keeps the mirror in order.
pub proof fn lemma_seq_wf(m: MirrorView, args: Seq<char>, seed: u64)
    requires
        m.wf(),
    ensures
        spec_try_seq(m, args, seed) matches Outcome::Done { cmd, mirror } ==> (mirror.bounded()
            ==> mirror.wf()),
{
    let w = spec_words(args);
    match spec_try_seq(m, args, seed) {
        Outcome::Done { cmd, mirror } => {
            if mirror.bounded() {
                lemma_find_voice(m, w[0]);
                let idx = spec_find_voice(m, w[0])->Ok_0;
                let voice = voice_at(m, idx);
                let groups = m.groups.len();
                let contexts = m.tempo_cons.len();
                match idx {
                    Idx::Voice(v) => {
                        assert(voice_ok(m.voices[v as int].item, groups, contexts));
                    },
                    Idx::Member(g, v) => {
                        assert(voices_ok(m.groups[g as int].item.voices, groups, contexts));
                        assert(voice_ok(
                            m.groups[g as int].item.voices[v as int].item,
                            groups,
                            contexts,
                        ));
                    },
                    _ => {},
                }
                let start = SeqOpts {
                    tempo: TempoRepr::spec_new(voice.proc_tempi.len() as usize),
                    period: 4,
                    steps: Seq::empty(),
                    chance: Seq::empty(),
                    jit: Seq::empty(),
                };
                lemma_seq_opts(m, voice, w, 1, start);
                let opts = spec_seq_opts(m, voice, w, 1, start)->Ok_0;
                match idx {
                    Idx::Voice(v) => {
                        assert(mirror.voices[v as int].item == attached(voice, opts.tempo));
                        lemma_attached_ok(voice, opts.tempo, groups, contexts);
                        let s = mirror.voices;
                        assert forall|i: int, j: int| 0 <= i < j < s.len() implies (
                        #[trigger] s[i]).name != (#[trigger] s[j]).name by {
                            assert(m.voices[i].name != m.voices[j].name);
                        }
                        assert forall|i: int| 0 <= i < s.len() implies (#[trigger] s[i]).item.idx
                            == i && voice_ok(s[i].item, groups, contexts) by {
                            assert(m.voices[i].item.idx == i);
                            if i != v {
                                assert(voice_ok(m.voices[i].item, groups, contexts));
                            }
                        }
                        assert forall|g: int| 0 <= g < mirror.groups.len() implies (
                        #[trigger] mirror.groups[g]).item.idx == g && group_tempo_ok(
                            mirror.groups[g].item.tempo,
                            g,
                            contexts,
                        ) && voices_ok(mirror.groups[g].item.voices, groups, contexts) by {
                            assert(m.groups[g].item.idx == g);
                        }
                    },
                    Idx::Member(g, v) => {
                        let old = m.groups[g as int].item.voices;
                        let s = mirror.groups[g as int].item.voices;
                        assert(s[v as int].item == attached(voice, opts.tempo));
                        lemma_attached_ok(voice, opts.tempo, groups, contexts);
                        assert forall|i: int, j: int| 0 <= i < j < s.len() implies (
                        #[trigger] s[i]).name != (#[trigger] s[j]).name by {
                            assert(old[i].name != old[j].name);
                        }
                        assert forall|i: int| 0 <= i < s.len() implies (#[trigger] s[i]).item.idx
                            == i && voice_ok(s[i].item, groups, contexts) by {
                            assert(old[i].item.idx == i);
                            if i != v {
                                assert(voice_ok(old[i].item, groups, contexts));
                            }
                        }
                        let gs = mirror.groups;
                        assert forall|i: int, j: int| 0 <= i < j < gs.len() implies (
                        #[trigger] gs[i]).name != (#[trigger] gs[j]).name by {
                            assert(m.groups[i].name != m.groups[j].name);
                        }
                        assert forall|h: int| 0 <= h < gs.len() implies (#[trigger] gs[h]).item.idx
                            == h && group_tempo_ok(gs[h].item.tempo, h, contexts) && voices_ok(
                            gs[h].item.voices,
                            groups,
                            contexts,
                        ) by {
                            assert(m.groups[h].item.idx == h);
                        }
                    },
                    _ => {},
                }
            }
        },
        _ => {},
    }
}

/// Index coherence within the mirror: whatever line is read, a mirror that
/// was in order is in order after it, as long as its lists stay short enough
/// for their lengths to be indices.
pub proof fn lemma_parse_wf(m: MirrorView, line: Seq<char>, seed: u64)
    requires
        m.wf(),
    ensures
        spec_parse(m, line, seed) matches Outcome::Done { cmd, mirror } ==> (mirror.bounded()
            ==> mirror.wf()),
{
    let args = args_of(line);
    lemma_load_wf(m, args);
    lemma_unload_wf(m, args);
    lemma_group_wf(m, args);
    lemma_tc_wf(m, args);
    lemma_seq_wf(m, args, seed);
}

} // verus!
