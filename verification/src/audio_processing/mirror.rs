//! The command thread's picture of the engine: which tracks, voices, groups
//! and tempo contexts there are, by name, and where each stands in the
//! engine's lists.
//!
//! Every list is kept in the engine's order, so that an entry's `idx` is its
//! own position, and no name occurs twice in a list.

use vstd::prelude::*;
use crate::audio_processing::blast_time::TempoMode;
use crate::audio_processing::commands::TempoRepr;
use crate::audio_processing::lists::views;
use crate::audio_processing::text::{chars_of, same_text};
use crate::file_parsing::decode_helpers::AudioFile;

verus! {

/// Something with a name.
#[derive(Debug, Clone, PartialEq)]
pub struct Named<T> {
    pub name: Vec<char>,
    pub item: T,
}

/// A named thing as a value.
pub struct NamedView<V> {
    pub name: Seq<char>,
    pub item: V,
}

impl<T: View> View for Named<T> {
    type V = NamedView<T::V>;

    open spec fn view(&self) -> NamedView<T::V> {
        NamedView { name: self.name@, item: self.item@ }
    }
}

/// The place of a track in the engine's list of tracks.
#[derive(Debug, Clone, Copy, PartialEq)]
pub struct TrackRepr {
    pub idx: usize,
}

impl View for TrackRepr {
    type V = TrackRepr;

    open spec fn view(&self) -> TrackRepr {
        *self
    }
}

impl TrackRepr {
    pub fn new(idx: usize) -> (r: TrackRepr)
        ensures
            r.idx == idx,
    {
        TrackRepr { idx }
    }
}

impl View for TempoRepr {
    type V = TempoRepr;

    open spec fn view(&self) -> TempoRepr {
        *self
    }
}

/// A process of a voice: its place among the voice's processes and its
/// tempo.
#[derive(Debug, Clone, Copy, PartialEq)]
pub struct ProcRepr {
    pub idx: usize,
    pub tempo: Option<TempoRepr>,
}

impl ProcRepr {
    pub fn new(idx: usize, tempo: Option<TempoRepr>) -> (r: ProcRepr)
        ensures
            r == (ProcRepr { idx, tempo }),
    {
        ProcRepr { idx, tempo }
    }
}

/// A voice: its place in the list that holds it, its tempo, its processes in
/// the engine's order, and the tempi that those processes own.
#[derive(Debug, Clone, PartialEq)]
pub struct VoiceRepr {
    pub idx: usize,
    pub tempo: TempoRepr,
    pub processes: Vec<ProcRepr>,
    pub proc_tempi: Vec<TempoRepr>,
}

/// A voice of the mirror as a value.
pub struct VoiceView {
    pub idx: usize,
    pub tempo: TempoRepr,
    pub processes: Seq<ProcRepr>,
    pub proc_tempi: Seq<TempoRepr>,
}

impl View for VoiceRepr {
    type V = VoiceView;

    open spec fn view(&self) -> VoiceView {
        VoiceView {
            idx: self.idx,
            tempo: self.tempo,
            processes: self.processes@,
            proc_tempi: self.proc_tempi@,
        }
    }
}

impl VoiceRepr {
    pub fn new(idx: usize, tempo: TempoRepr) -> (r: VoiceRepr)
        ensures
            r@ == (VoiceView {
                idx,
                tempo,
                processes: Seq::<ProcRepr>::empty(),
                proc_tempi: Seq::<TempoRepr>::empty(),
            }),
    {
        VoiceRepr { idx, tempo, processes: Vec::new(), proc_tempi: Vec::new() }
    }
}

/// A group: its place among the groups, its tempo, and its voices in the
/// group's order.
#[derive(Debug, Clone, PartialEq)]
pub struct GroupRepr {
    pub idx: usize,
    pub tempo: TempoRepr,
    pub voices: Vec<Named<VoiceRepr>>,
}

/// A group of the mirror as a value.
pub struct GroupView {
    pub idx: usize,
    pub tempo: TempoRepr,
    pub voices: Seq<NamedView<VoiceView>>,
}

impl View for GroupRepr {
    type V = GroupView;

    open spec fn view(&self) -> GroupView {
        GroupView { idx: self.idx, tempo: self.tempo, voices: views(self.voices@) }
    }
}

impl GroupRepr {
    pub fn new(idx: usize, tempo: TempoRepr, voices: Vec<Named<VoiceRepr>>) -> (r: GroupRepr)
        ensures
            r@ == (GroupView { idx, tempo, voices: views(voices@) }),
    {
        GroupRepr { idx, tempo, voices }
    }
}

/// Index of the first entry of `s` called `name`, or the length of `s` where
/// there is none.
pub open spec fn index_of<V>(s: Seq<NamedView<V>>, name: Seq<char>) -> nat
    decreases s.len(),
{
    if s.len() == 0 || s[0].name == name {
        0
    } else {
        1 + index_of(s.skip(1), name)
    }
}

/// Whether `s` has an entry called `name`.
pub open spec fn has_name<V>(s: Seq<NamedView<V>>, name: Seq<char>) -> bool {
    index_of(s, name) < s.len()
}

/// No two entries of `s` have the same name.
pub open spec fn distinct_names<V>(s: Seq<NamedView<V>>) -> bool {
    forall|i: int, j: int| 0 <= i < j < s.len() ==> (#[trigger] s[i]).name != (#[trigger] s[j]).name
}

/// An entry of that name with none before it, or the end of a list that has
/// none, is what `index_of` finds.
pub proof fn lemma_index_of<V>(s: Seq<NamedView<V>>, name: Seq<char>, n: int)
    requires
        0 <= n <= s.len(),
        forall|j: int| 0 <= j < n ==> (#[trigger] s[j]).name != name,
        n == s.len() || s[n].name == name,
    ensures
        index_of(s, name) == n,
    decreases s.len(),
{
    if s.len() == 0 || s[0].name == name {
    } else {
        lemma_index_of(s.skip(1), name, n - 1);
    }
}

/// What `index_of` finds: an entry of that name with none before it, or the
/// end of a sequence that has none.
pub proof fn lemma_index_of_is_first<V>(s: Seq<NamedView<V>>, name: Seq<char>)
    ensures
        index_of(s, name) <= s.len(),
        index_of(s, name) < s.len() ==> s[index_of(s, name) as int].name == name,
        forall|j: int| 0 <= j < index_of(s, name) ==> (#[trigger] s[j]).name != name,
    decreases s.len(),
{
    if s.len() == 0 || s[0].name == name {
    } else {
        lemma_index_of_is_first(s.skip(1), name);
        assert forall|j: int| 0 <= j < index_of(s, name) implies (#[trigger] s[j]).name
            != name by {
            if j > 0 {
                assert(s[j] == s.skip(1)[j - 1]);
            }
        }
    }
}

/// Finds the entry called `name`.
pub fn find<T: View>(v: &Vec<Named<T>>, name: &Vec<char>) -> (r: Option<usize>)
    ensures
        r == (if has_name(views(v@), name@) {
            Some(index_of(views(v@), name@) as usize)
        } else {
            None
        }),
        r.is_some() ==> r.unwrap() < v.len(),
{
    let mut i: usize = 0;
    while i < v.len()
        invariant
            i <= v.len(),
            forall|j: int| 0 <= j < i ==> (#[trigger] views(v@)[j]).name != name@,
        decreases v.len() - i,
    {
        if same_text(&v[i].name, name) {
            proof {
                lemma_index_of(views(v@), name@, i as int);
            }
            return Some(i);
        }
        i += 1;
    }
    proof {
        lemma_index_of(views(v@), name@, i as int);
    }
    None
}

/// The voices of `s`, each with its own position as its `idx`.
pub open spec fn renumbered(s: Seq<NamedView<VoiceView>>) -> Seq<NamedView<VoiceView>> {
    Seq::new(
        s.len(),
        |i: int| NamedView { name: s[i].name, item: VoiceView { idx: i as usize, ..s[i].item } },
    )
}

/// Gives each voice its own position as its `idx`.
pub fn renumber(v: &mut Vec<Named<VoiceRepr>>)
    ensures
        views(final(v)@) == renumbered(views(old(v)@)),
{
    let ghost orig = views(v@);
    let mut i: usize = 0;
    while i < v.len()
        invariant
            i <= v.len(),
            v@.len() == orig.len(),
            forall|j: int| 0 <= j < i ==> (#[trigger] views(v@)[j]) == renumbered(orig)[j],
            forall|j: int| i <= j < v.len() ==> (#[trigger] views(v@)[j]) == orig[j],
        decreases v.len() - i,
    {
        let ghost before = v@;
        v[i].item.idx = i;
        proof {
            assert forall|j: int| 0 <= j < i + 1 implies (#[trigger] views(v@)[j]) == renumbered(
                orig,
            )[j] by {
                if j < i {
                    assert(v@[j] == before[j]);
                    assert(views(before)[j] == renumbered(orig)[j]);
                } else {
                    assert(views(before)[j] == orig[j]);
                }
            }
            assert forall|j: int| i + 1 <= j < v.len() implies (#[trigger] views(v@)[j])
                == orig[j] by {
                assert(v@[j] == before[j]);
                assert(views(before)[j] == orig[j]);
            }
        }
        i += 1;
    }
    assert(views(v@) =~= renumbered(orig));
}

/// The mirror as a value.
pub struct MirrorView {
    pub tracks: Seq<NamedView<TrackRepr>>,
    pub voices: Seq<NamedView<VoiceView>>,
    pub groups: Seq<NamedView<GroupView>>,
    pub tempo_cons: Seq<NamedView<TempoRepr>>,
    pub out_channels: usize,
}

/// What the tempo of a process can be: a new one of mode `Process`, or
/// none yet; or a reference to a group or a tempo context that there is,
/// among `groups` groups and `contexts` contexts, or to the tempo of the
/// process's voice.
pub open spec fn ref_ok(t: TempoRepr, groups: nat, contexts: nat) -> bool {
    &&& t.mode == TempoMode::Group ==> !t.owned && t.idx < groups
    &&& t.mode == TempoMode::Context ==> !t.owned && t.idx < contexts
    &&& t.mode == TempoMode::Process ==> t.owned
}

/// What the tempo of a voice can be: a new one of mode `Voice`, or none
/// yet; or a reference to a group or a tempo context that there is.
pub open spec fn voice_tempo_ok(t: TempoRepr, groups: nat, contexts: nat) -> bool {
    &&& ref_ok(t, groups, contexts)
    &&& t.mode != TempoMode::Process
    &&& t.mode == TempoMode::Voice || t.mode == TempoMode::TBD ==> t.owned
}

/// What the tempo of the group at `place` can be: a new one of mode
/// `Group`, or a reference to a tempo context that there is.
pub open spec fn group_tempo_ok(t: TempoRepr, place: int, contexts: nat) -> bool {
    if t.owned {
        t.mode == TempoMode::Group && t.idx == place
    } else {
        t.mode == TempoMode::Context && t.idx < contexts
    }
}

/// Each process's `idx` is its position.
pub open spec fn procs_in_order(s: Seq<ProcRepr>) -> bool {
    forall|k: int| 0 <= k < s.len() ==> (#[trigger] s[k]).idx == k
}

/// The voice's processes are in order, and its tempo and theirs name what
/// there is.
pub open spec fn voice_ok(v: VoiceView, groups: nat, contexts: nat) -> bool {
    &&& procs_in_order(v.processes)
    &&& voice_tempo_ok(v.tempo, groups, contexts)
    &&& forall|k: int|
        0 <= k < v.processes.len() && (#[trigger] v.processes[k]).tempo.is_some() ==> ref_ok(
            v.processes[k].tempo.unwrap(),
            groups,
            contexts,
        )
}

/// No name occurs twice, and each voice's `idx` is its position.
pub open spec fn voices_ok(s: Seq<NamedView<VoiceView>>, groups: nat, contexts: nat) -> bool {
    &&& distinct_names(s)
    &&& forall|i: int|
        0 <= i < s.len() ==> (#[trigger] s[i]).item.idx == i && voice_ok(s[i].item, groups, contexts)
}

impl MirrorView {
    /// Every list is short enough for its length to be an index.
    pub open spec fn bounded(self) -> bool {
        &&& self.voices.len() <= usize::MAX
        &&& self.groups.len() <= usize::MAX
        &&& self.tempo_cons.len() <= usize::MAX
        &&& forall|i: int|
            0 <= i < self.voices.len() ==> (#[trigger] self.voices[i]).item.processes.len()
                <= usize::MAX
        &&& forall|g: int|
            0 <= g < self.groups.len() ==> (#[trigger] self.groups[g]).item.voices.len()
                <= usize::MAX
        &&& forall|g: int, i: int|
            0 <= g < self.groups.len() && 0 <= i < self.groups[g].item.voices.len() ==> (
            #[trigger] self.groups[g].item.voices[i]).item.processes.len() <= usize::MAX
    }

    /// Index coherence within the mirror: the lists are in order and short
    /// enough.
    pub open spec fn wf(self) -> bool {
        self.ordered() && self.bounded()
    }

    /// In every list no name occurs twice and every `idx` is the entry's own
    /// position; and every tempo that refers to a group or a tempo context
    /// refers to one that there is.
    pub open spec fn ordered(self) -> bool {
        &&& distinct_names(self.tracks)
        &&& voices_ok(self.voices, self.groups.len(), self.tempo_cons.len())
        &&& distinct_names(self.groups)
        &&& forall|g: int|
            0 <= g < self.groups.len() ==> (#[trigger] self.groups[g]).item.idx == g
                && group_tempo_ok(self.groups[g].item.tempo, g, self.tempo_cons.len()) && voices_ok(
                self.groups[g].item.voices,
                self.groups.len(),
                self.tempo_cons.len(),
            )
        &&& distinct_names(self.tempo_cons)
        &&& forall|c: int|
            0 <= c < self.tempo_cons.len() ==> (#[trigger] self.tempo_cons[c]).item.idx == c
                && self.tempo_cons[c].item.mode == TempoMode::Context
                && self.tempo_cons[c].item.owned
    }
}

/// The command thread's picture of the engine.
#[derive(Debug, Clone, PartialEq)]
pub struct EngineState {
    pub tracks: Vec<Named<TrackRepr>>,
    pub voices: Vec<Named<VoiceRepr>>,
    pub groups: Vec<Named<GroupRepr>>,
    pub tempo_cons: Vec<Named<TempoRepr>>,
    pub out_channels: usize,
}

impl View for EngineState {
    type V = MirrorView;

    open spec fn view(&self) -> MirrorView {
        MirrorView {
            tracks: views(self.tracks@),
            voices: views(self.voices@),
            groups: views(self.groups@),
            tempo_cons: views(self.tempo_cons@),
            out_channels: self.out_channels,
        }
    }
}

/// The lists of a mirror that stands in memory are short enough.
pub proof fn lemma_view_bounded(es: EngineState)
    ensures
        es@.bounded(),
{
    assert(es@.voices.len() == es.voices.len());
    assert(es@.groups.len() == es.groups.len());
    assert(es@.tempo_cons.len() == es.tempo_cons.len());
    assert forall|i: int| 0 <= i < es@.voices.len() implies (
    #[trigger] es@.voices[i]).item.processes.len() <= usize::MAX by {
        assert(es@.voices[i].item.processes.len() == es.voices@[i].item.processes.len());
        assert(es.voices@[i].item.processes.len() <= usize::MAX);
    }
    assert forall|g: int| 0 <= g < es@.groups.len() implies (
    #[trigger] es@.groups[g]).item.voices.len() <= usize::MAX by {
        assert(es@.groups[g].item.voices.len() == es.groups@[g].item.voices.len());
        assert(es.groups@[g].item.voices.len() <= usize::MAX);
    }
    assert forall|g: int, i: int|
        0 <= g < es@.groups.len() && 0 <= i < es@.groups[g].item.voices.len() implies (
    #[trigger] es@.groups[g].item.voices[i]).item.processes.len() <= usize::MAX by {
        assert(es@.groups[g].item.voices[i].item.processes.len()
            == es.groups@[g].item.voices@[i].item.processes.len());
        assert(es.groups@[g].item.voices@[i].item.processes.len() <= usize::MAX);
    }
}

/// The tracks that a list of files gives: one per name, at the place of the
/// last file of that name.
pub open spec fn tracks_of(names: Seq<Seq<char>>) -> Seq<NamedView<TrackRepr>>
    decreases names.len(),
{
    if names.len() == 0 {
        Seq::empty()
    } else {
        let before = tracks_of(names.drop_last());
        let entry = NamedView {
            name: names.last(),
            item: TrackRepr { idx: (names.len() - 1) as usize },
        };
        if has_name(before, names.last()) {
            before.update(index_of(before, names.last()) as int, entry)
        } else {
            before.push(entry)
        }
    }
}

/// The names of a list of files.
pub open spec fn file_names(files: Seq<AudioFile>) -> Seq<Seq<char>> {
    Seq::new(files.len(), |i: int| files[i].file_name@)
}

/// The tracks of a list of files have each name once and places in the list.
pub proof fn lemma_tracks_distinct(names: Seq<Seq<char>>)
    ensures
        distinct_names(tracks_of(names)),
        forall|i: int|
            0 <= i < tracks_of(names).len() ==> (#[trigger] tracks_of(names)[i]).item.idx
                < names.len(),
    decreases names.len(),
{
    if names.len() > 0 {
        let before = tracks_of(names.drop_last());
        lemma_tracks_distinct(names.drop_last());
        lemma_index_of_is_first(before, names.last());
    }
}

impl EngineState {
    /// A mirror of an engine that has these tracks and nothing else.
    pub fn new(files: &Vec<AudioFile>, out_channels: usize) -> (r: EngineState)
        ensures
            r@ == (MirrorView {
                tracks: tracks_of(file_names(files@)),
                voices: Seq::empty(),
                groups: Seq::empty(),
                tempo_cons: Seq::empty(),
                out_channels,
            }),
            r@.wf(),
    {
        let mut tracks: Vec<Named<TrackRepr>> = Vec::new();
        let ghost names = file_names(files@);
        let mut i: usize = 0;
        while i < files.len()
            invariant
                i <= files.len(),
                names == file_names(files@),
                views(tracks@) == tracks_of(names.take(i as int)),
            decreases files.len() - i,
        {
            let name = chars_of(files[i].file_name.as_str());
            let ghost before = views(tracks@);
            proof {
                assert(names.take(i + 1).drop_last() =~= names.take(i as int));
                assert(names.take(i + 1).last() == name@);
            }
            match find(&tracks, &name) {
                Some(at) => {
                    tracks[at] = Named { name, item: TrackRepr::new(i) };
                    assert(views(tracks@) =~= before.update(
                        at as int,
                        NamedView { name: name@, item: TrackRepr { idx: i } },
                    ));
                },
                None => {
                    tracks.push(Named { name, item: TrackRepr::new(i) });
                    assert(views(tracks@) =~= before.push(
                        NamedView { name: name@, item: TrackRepr { idx: i } },
                    ));
                },
            }
            i += 1;
        }
        proof {
            assert(names.take(files.len() as int) =~= names);
            lemma_tracks_distinct(names);
        }
        let r = EngineState {
            tracks,
            voices: Vec::new(),
            groups: Vec::new(),
            tempo_cons: Vec::new(),
            out_channels,
        };
        assert(r@.voices =~= Seq::empty());
        assert(r@.groups =~= Seq::empty());
        assert(r@.tempo_cons =~= Seq::empty());
        r
    }
}

} // verus!
