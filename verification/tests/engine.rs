use blast::audio_processing::blast_rand::X128P;
use blast::audio_processing::blast_time::{TempoMode, TempoState, TempoUnit};
use blast::audio_processing::commands::{
    Command, GroupArgs, Idx, LoadArgs, SeqArgs, StartArgs, TempoRepr, UnloadArgs,
};
use blast::audio_processing::engine::{byte_offset, Conductor, Voice};
use blast::audio_processing::fixed::{Fixed, ONE};
use blast::audio_processing::mirror::EngineState;
use blast::audio_processing::parser::CmdProcessor;
use blast::audio_processing::processes::{
    Process, SeqState, Sequencer, TempoLink, VoiceState,
};
use blast::file_parsing::decode_helpers::AudioFile;

fn fx(whole: i64) -> Fixed {
    Fixed { raw: whole * ONE }
}

fn kick_samples() -> Vec<i16> {
    (0..12000).map(|i| (i % 1000) as i16 + 1).collect()
}

fn snare_samples() -> Vec<i16> {
    (0..24000).map(|i| if i % 2 == 0 { (i / 2 % 500) as i16 } else { -((i / 2 % 500) as i16) }).collect()
}

fn tracks() -> Vec<AudioFile> {
    vec![
        AudioFile::new("kick", "wav", 48000, 1, 16, kick_samples()),
        AudioFile::new("snare", "wav", 48000, 2, 16, snare_samples()),
    ]
}

struct Rig {
    parser: CmdProcessor,
    engine: Conductor,
}

impl Rig {
    fn new(out_channels: usize) -> Rig {
        Rig {
            parser: CmdProcessor::new(EngineState::new(&tracks(), out_channels)),
            engine: Conductor::prepare(out_channels, tracks(), 48000),
        }
    }

    fn run(&mut self, line: &str) {
        let cmd = self.parser.parse(line, 42).unwrap();
        assert!(self.engine.accepts(&cmd), "{}", line);
        self.engine.apply(cmd);
    }

    fn play(&mut self, frames: usize) -> Vec<i16> {
        let mut out = vec![7i16; frames * self.engine.out_channels];
        self.engine.coordinate(&mut out, frames);
        out
    }
}

#[test]
fn basic_playback() {
    let mut rig = Rig::new(2);
    rig.run("load kick");
    assert_eq!(rig.engine.voices.len(), 1);
    match rig.engine.voices[0].state.tempo {
        TempoLink::Own(t) => assert_eq!(t.mode, TempoMode::TBD),
        other => panic!("{:?}", other),
    }
    rig.run("start -v kick");
    assert!(rig.engine.voices[0].state.active);
    assert_eq!(rig.engine.voices[0].state.position, fx(0));
    assert_eq!(rig.engine.voices[0].state.end, 11999);
    let out = rig.play(12000);
    let kick = kick_samples();
    for f in 0..11999 {
        assert_eq!(out[2 * f], kick[f]);
        assert_eq!(out[2 * f + 1], kick[f]);
    }
    assert_eq!(out[2 * 11999], 0);
    assert_eq!(out[2 * 11999 + 1], 0);
    assert_eq!(rig.engine.voices[0].state.position, fx(12000));
    let more = rig.play(64);
    assert!(more.iter().all(|s| *s == 0));
    assert_eq!(rig.engine.clock.samples, 12064);
}

#[test]
fn nothing_plays_before_start() {
    let mut rig = Rig::new(2);
    rig.run("load kick");
    let out = rig.play(16);
    assert!(out.iter().all(|s| *s == 0));
    assert_eq!(rig.engine.voices[0].state.position, fx(0));
    assert_eq!(rig.engine.clock.samples, 16);
}

#[test]
fn mixer_leaves_the_rest_of_the_buffer() {
    let mut rig = Rig::new(2);
    rig.run("load kick");
    rig.run("start -v kick");
    let mut out = vec![7i16; 10];
    rig.engine.coordinate(&mut out, 3);
    assert_eq!(out, vec![1, 1, 2, 2, 3, 3, 7, 7, 7, 7]);
}

#[test]
fn channel_routing() {
    let mut rig = Rig::new(4);
    rig.run("load kick");
    rig.run("load snare");
    rig.run("start -v kick");
    let out = rig.play(4);
    let kick = kick_samples();
    for f in 0..4 {
        assert_eq!(&out[4 * f..4 * f + 4], &[kick[f], kick[f], 0, 0]);
    }
    rig.run("stop -v kick");
    rig.run("start -v snare");
    let out = rig.play(4);
    let snare = snare_samples();
    for f in 0..4 {
        assert_eq!(&out[4 * f..4 * f + 4], &[snare[2 * f], snare[2 * f + 1], 0, 0]);
    }
    // a mono track on one output channel
    let mut one = Rig::new(1);
    one.run("load kick");
    one.run("start -v kick");
    assert_eq!(one.play(3), vec![kick[0], kick[1], kick[2]]);
}

#[test]
fn voices_add_up_and_clip() {
    let loud = vec![30000i16; 8];
    let files = vec![
        AudioFile::new("a", "wav", 48000, 1, 16, loud.clone()),
        AudioFile::new("b", "wav", 48000, 1, 16, loud),
        AudioFile::new("c", "wav", 48000, 1, 16, vec![-30000i16; 8]),
    ];
    let mut engine = Conductor::prepare(1, files, 48000);
    for track_idx in 0..3 {
        engine.apply(Command::Load(LoadArgs {
            track_idx,
            tempo_repr: TempoRepr::new(0),
        }));
    }
    engine.apply(Command::Start(StartArgs { idx: Idx::Voice(0) }));
    engine.apply(Command::Start(StartArgs { idx: Idx::Voice(1) }));
    let mut out = vec![0i16; 2];
    engine.coordinate(&mut out, 2);
    assert_eq!(out, vec![32767, 32767]);
    engine.apply(Command::Start(StartArgs { idx: Idx::Voice(2) }));
    engine.coordinate(&mut out, 2);
    assert_eq!(out, vec![2767, 2767]);
}

#[test]
fn velocity_reversal() {
    let mut rig = Rig::new(2);
    rig.run("load snare");
    rig.run("velocity snare -1.0");
    rig.run("start -v snare");
    assert_eq!(rig.engine.voices[0].state.position, fx(11999));
    // at the end itself nothing sounds
    let out = rig.play(1);
    assert_eq!(out, vec![0, 0]);
    assert_eq!(rig.engine.voices[0].state.position, fx(11998));
    let out = rig.play(3);
    let snare = snare_samples();
    for (n, f) in [11998usize, 11997, 11996].iter().enumerate() {
        assert_eq!(out[2 * n], snare[2 * f]);
        assert_eq!(out[2 * n + 1], snare[2 * f + 1]);
    }
    let mut last = rig.engine.voices[0].state.position;
    for _ in 0..100 {
        rig.play(1);
        let now = rig.engine.voices[0].state.position;
        assert!(now.raw < last.raw);
        last = now;
    }
    rig.play(12000);
    assert!(rig.engine.voices[0].state.position.raw < 0);
    assert!(rig.play(8).iter().all(|s| *s == 0));
}

#[test]
fn half_speed_reads_between_frames() {
    let files = vec![AudioFile::new("ramp", "wav", 48000, 1, 16, vec![0, 100, 200, 300])];
    let mut parser = CmdProcessor::new(EngineState::new(&files, 1));
    let mut engine = Conductor::prepare(1, files, 48000);
    for line in ["load ramp", "velocity ramp 0.5", "start -v ramp"] {
        engine.apply(parser.parse(line, 1).unwrap());
    }
    let mut out = vec![0i16; 6];
    engine.coordinate(&mut out, 6);
    assert_eq!(out, vec![0, 50, 100, 150, 200, 250]);
    assert_eq!(engine.voices[0].state.position, fx(3));
}

#[test]
fn gain_scales_and_rounds_toward_zero() {
    let files = vec![AudioFile::new("t", "wav", 48000, 1, 16, vec![3, -3, 1001, 0])];
    let mut engine = Conductor::prepare(1, files, 48000);
    engine.apply(Command::Load(LoadArgs { track_idx: 0, tempo_repr: TempoRepr::new(0) }));
    engine.voices[0].state.gain = Fixed { raw: ONE / 2 };
    engine.apply(Command::Start(StartArgs { idx: Idx::Voice(0) }));
    let mut out = vec![0i16; 3];
    engine.coordinate(&mut out, 3);
    assert_eq!(out, vec![1, -1, 500]);
}

#[test]
fn tempo_context() {
    let mut rig = Rig::new(2);
    rig.run("tc clock b:120");
    assert_eq!(rig.engine.tempo_cons, vec![0]);
    let t: TempoState = rig.engine.tempi[0];
    assert_eq!(t.mode, TempoMode::Context);
    assert_eq!(t.unit, TempoUnit::Bpm);
    assert_eq!(t.interval, fx(24000));
    assert!(!t.active);
    rig.run("start -t clock");
    assert!(rig.engine.tempi[0].active);
    let mut t = rig.engine.tempi[0];
    for _ in 0..24000 {
        t.update(1);
    }
    assert_eq!(t.current(), fx(1));
    // the mixer does not advance a context
    rig.play(10);
    assert_eq!(rig.engine.tempi[0].current, 0);
}

#[test]
fn sequencer_with_chance_zero_never_retriggers() {
    let mut rig = Rig::new(2);
    rig.run("load kick");
    rig.run("seq kick -t b:120 -p 4 -s 0,1,2,3 -c 0,0,0,0");
    rig.run("start -v kick");
    let mut last = -1;
    for _ in 0..30000 {
        rig.play(1);
        let now = rig.engine.voices[0].state.position.raw;
        assert!(now > last);
        last = now;
    }
    assert_eq!(rig.engine.voices[0].state.position, fx(30000));
    // the steps were due all the same
    match &rig.engine.voices[0].processes[0] {
        Process::Sequencer(s) => assert_eq!(s.state.idx, 3),
    }
}

#[test]
fn sequencer_with_chance_hundred_retriggers_on_the_beat() {
    let mut rig = Rig::new(2);
    rig.run("load kick");
    rig.run("seq kick -t b:120 -p 4 -s 0,1,2,3");
    rig.run("start -v kick");
    // the voice's two channels advance the sequencer's tempo twice a frame,
    // so the second beat falls on frame 12000
    rig.play(12000);
    assert_eq!(rig.engine.voices[0].state.position, fx(12000));
    let out = rig.play(1);
    assert_eq!(out, vec![1, 1]);
    assert_eq!(rig.engine.voices[0].state.position, fx(1));
    match &rig.engine.voices[0].processes[0] {
        Process::Sequencer(s) => {
            assert_eq!(s.state.idx, 2);
            match s.state.tempo {
                TempoLink::Own(t) => assert_eq!(t.current, 24002),
                other => panic!("{:?}", other),
            }
        }
    }
}

#[test]
fn sequencer_step_by_hand() {
    let mut tempo = TempoState::new();
    tempo.init(TempoMode::Process, TempoUnit::Samples, fx(10), 48000);
    tempo.start();
    let mut seq = Sequencer {
        state: SeqState {
            active: true,
            period: 2,
            tempo: TempoLink::Owner,
            steps: vec![fx(0), fx(1)],
            chance: vec![fx(100), fx(0)],
            jit: vec![fx(100), fx(100)],
            rng: X128P::new(42),
            idx: 0,
        },
    };
    let mut voice = VoiceState {
        active: true,
        position: fx(5),
        end: 9,
        velocity: fx(-1),
        gain: fx(1),
        tempo: TempoLink::Owner,
    };
    seq.process(&mut voice, &tempo);
    assert_eq!(voice.position, fx(9));
    assert_eq!(seq.state.idx, 1);
    let mut drawn = X128P::new(42);
    drawn.next_u64();
    assert_eq!(seq.state.rng, drawn);
    voice.position = fx(5);
    tempo.update(9);
    seq.process(&mut voice, &tempo);
    assert_eq!((voice.position, seq.state.idx), (fx(5), 1));
    tempo.update(1);
    seq.process(&mut voice, &tempo);
    assert_eq!((voice.position, seq.state.idx), (fx(5), 0));
    // a tempo that does not run, or a sequencer without steps, does nothing
    tempo.pause();
    tempo.update(10);
    seq.process(&mut voice, &tempo);
    assert_eq!(seq.state.idx, 0);
    seq.reset();
    assert_eq!(seq.state.idx, 0);
    seq.update_tempo(TempoLink::Shared(3));
    assert!(matches!(seq.state.tempo, TempoLink::Shared(3)));
}

#[test]
fn sequencer_fires_where_its_beat_is_reached() {
    let mut tempo = TempoState::new();
    tempo.init(TempoMode::Context, TempoUnit::Samples, fx(10), 48000);
    tempo.start();
    let mut seq = Sequencer {
        state: SeqState {
            active: true,
            period: 2,
            tempo: TempoLink::Shared(0),
            steps: vec![fx(0), fx(1)],
            chance: vec![fx(100), fx(100)],
            jit: vec![fx(100), fx(100)],
            rng: X128P::new(7),
            idx: 0,
        },
    };
    let mut voice = VoiceState {
        active: true,
        position: fx(5),
        end: 9,
        velocity: fx(1),
        gain: fx(1),
        tempo: TempoLink::Owner,
    };
    // made in the middle of a bar, it waits for the next bar to begin
    tempo.update(15);
    seq.process(&mut voice, &tempo);
    assert_eq!((voice.position, seq.state.idx), (fx(5), 0));
    tempo.update(4);
    seq.process(&mut voice, &tempo);
    assert_eq!((voice.position, seq.state.idx), (fx(5), 0));
    tempo.update(1);
    seq.process(&mut voice, &tempo);
    assert_eq!((voice.position, seq.state.idx), (fx(0), 1));
    // a tempo that starts anew is followed from its start
    voice.position = fx(5);
    tempo.start();
    seq.process(&mut voice, &tempo);
    assert_eq!((voice.position, seq.state.idx), (fx(5), 1));
    tempo.update(10);
    seq.process(&mut voice, &tempo);
    assert_eq!((voice.position, seq.state.idx), (fx(0), 0));
    // a beat that went by while nobody looked is not made up for
    voice.position = fx(5);
    tempo.update(25);
    seq.process(&mut voice, &tempo);
    assert_eq!((voice.position, seq.state.idx), (fx(5), 0));
    tempo.update(5);
    seq.process(&mut voice, &tempo);
    assert_eq!((voice.position, seq.state.idx), (fx(0), 1));
}

#[test]
fn sequencer_misses_no_step_that_falls_between_samples() {
    // at 130 beats per minute no sample falls on the fourth beat
    let mut rig = Rig::new(1);
    rig.run("load kick");
    rig.run("seq kick -t b:130 -p 4 -s 0,1,2,3");
    rig.run("start -v kick");
    let mut starts = Vec::new();
    for frame in 0..100000usize {
        rig.play(1);
        if rig.engine.voices[0].state.position == fx(1) {
            starts.push(frame);
        }
    }
    // 48000 * 60 / 130 is 22153.8 samples to the beat
    assert_eq!(starts, vec![0, 22154, 44308, 66462, 88616]);
    match &rig.engine.voices[0].processes[0] {
        Process::Sequencer(s) => assert_eq!(s.state.idx, 1),
    }
}

#[test]
fn group_reparenting() {
    let mut rig = Rig::new(2);
    rig.run("load kick");
    rig.run("load snare");
    rig.run("group band -t b:60 -v kick,snare");
    assert_eq!(rig.engine.voices.len(), 0);
    assert_eq!(rig.engine.groups.len(), 1);
    let band = &rig.engine.groups[0];
    assert_eq!(band.voices.len(), 2);
    assert_eq!(band.voices[0].samples, kick_samples());
    assert_eq!(band.voices[1].samples, snare_samples());
    assert_eq!(band.state.tempo, 0);
    for v in &band.voices {
        assert!(matches!(v.state.tempo, TempoLink::Shared(0)));
    }
    assert_eq!(rig.engine.tempi.len(), 1);
    assert_eq!(rig.engine.tempi[0].mode, TempoMode::Group);
    assert_eq!(rig.engine.tempi[0].interval, fx(48000));
}

#[test]
fn group_takes_voices_highest_place_first() {
    let files: Vec<AudioFile> = (0..5)
        .map(|i| AudioFile::new(&format!("t{}", i), "wav", 48000, 1, 16, vec![i as i16; 4]))
        .collect();
    let mut engine = Conductor::prepare(1, files, 48000);
    for track_idx in 0..5 {
        engine.apply(Command::Load(LoadArgs { track_idx, tempo_repr: TempoRepr::new(0) }));
    }
    let group = |places: Vec<usize>, order: Vec<usize>| {
        Command::Group(GroupArgs {
            tempo: TempoRepr::new(0),
            vs_fs_ps: places.into_iter().map(|p| (p, p == 0, vec![])).collect(),
            order,
        })
    };
    assert!(!engine.accepts(&group(vec![3, 0, 4], vec![0, 1, 2])));
    assert!(!engine.accepts(&group(vec![3, 3], vec![0, 1])));
    assert!(!engine.accepts(&group(vec![5, 3], vec![0, 1])));
    assert!(!engine.accepts(&group(vec![4, 3, 0], vec![0, 1])));
    assert!(!engine.accepts(&group(vec![4, 3, 0], vec![0, 1, 1])));
    assert!(!engine.accepts(&group(vec![4, 3, 0], vec![0, 1, 3])));
    let cmd = group(vec![4, 3, 0], vec![1, 2, 0]);
    assert!(engine.accepts(&cmd));
    engine.apply(cmd);
    let top: Vec<i16> = engine.voices.iter().map(|v| v.samples[0]).collect();
    assert_eq!(top, vec![1, 2]);
    let inside: Vec<i16> = engine.groups[0].voices.iter().map(|v| v.samples[0]).collect();
    assert_eq!(inside, vec![3, 0, 4]);
    assert!(matches!(engine.groups[0].voices[0].state.tempo, TempoLink::Own(_)));
    assert!(matches!(engine.groups[0].voices[1].state.tempo, TempoLink::Shared(0)));
}

#[test]
fn group_of_kick_and_snare_from_its_payload() {
    let mut engine = Conductor::prepare(2, tracks(), 48000);
    engine.apply(Command::Load(LoadArgs { track_idx: 0, tempo_repr: TempoRepr::new(0) }));
    engine.apply(Command::Load(LoadArgs { track_idx: 1, tempo_repr: TempoRepr::new(0) }));
    let tempo = TempoRepr {
        idx: 0,
        owned: true,
        mode: TempoMode::Group,
        unit: TempoUnit::Bpm,
        interval: fx(60),
    };
    engine.apply(Command::Group(GroupArgs {
        tempo,
        vs_fs_ps: vec![(1, true, vec![]), (0, true, vec![])],
        order: vec![1, 0],
    }));
    assert_eq!(engine.voices.len(), 0);
    assert_eq!(engine.groups.len(), 1);
    assert_eq!(engine.groups[0].voices[0].samples, kick_samples());
    assert_eq!(engine.groups[0].voices[1].samples, snare_samples());
}

#[test]
fn group_plays_its_voices_and_advances_its_tempo() {
    let mut rig = Rig::new(2);
    rig.run("load kick");
    rig.run("group band -t s:100 -v kick");
    rig.run("start -g band");
    assert!(rig.engine.groups[0].state.active);
    assert!(rig.engine.groups[0].voices[0].state.active);
    assert!(rig.engine.tempi[0].active);
    let out = rig.play(3);
    assert_eq!(out, vec![1, 1, 2, 2, 3, 3]);
    assert_eq!(rig.engine.tempi[0].current, 6);
    rig.run("pause -g band");
    assert!(rig.play(2).iter().all(|s| *s == 0));
    assert_eq!(rig.engine.tempi[0].current, 6);
    rig.run("resume -g band");
    assert_eq!(rig.play(1), vec![4, 4]);
    rig.run("stop -g band");
    assert!(!rig.engine.groups[0].voices[0].state.active);
    assert_eq!(rig.engine.tempi[0].current, 0);
    assert!(!rig.engine.tempi[0].active);
}

#[test]
fn sequencer_in_a_group_follows_the_group() {
    let mut rig = Rig::new(1);
    rig.run("load kick");
    rig.run("seq kick -t v -p 1 -s 0");
    rig.run("group band -t s:5 -v kick");
    match &rig.engine.groups[0].voices[0].processes[0] {
        Process::Sequencer(s) => assert!(matches!(s.state.tempo, TempoLink::Shared(0))),
    }
    rig.run("start -g band");
    let out = rig.play(12);
    // every five samples the voice starts again
    assert_eq!(out, vec![1, 2, 3, 4, 5, 1, 2, 3, 4, 5, 1, 2]);
}

#[test]
fn stop_sets_a_voice_back() {
    let mut rig = Rig::new(2);
    rig.run("load kick");
    rig.run("seq kick -t s:3 -p 4 -s 0,1,2,3 -c a:0");
    rig.run("start -v kick");
    rig.play(10);
    assert_ne!(rig.engine.voices[0].state.position, fx(0));
    rig.run("stop -v kick");
    let v = &rig.engine.voices[0];
    assert!(!v.state.active);
    assert_eq!(v.state.position, fx(0));
    match &v.processes[0] {
        Process::Sequencer(s) => assert_eq!(s.state.idx, 0),
    }
    rig.run("velocity kick -2");
    rig.run("start -v kick");
    rig.play(10);
    rig.run("stop -v kick");
    assert_eq!(rig.engine.voices[0].state.position, fx(11999));
}

#[test]
fn pause_and_resume_restore_a_playing_voice() {
    let mut rig = Rig::new(2);
    rig.run("load kick");
    rig.run("start -v kick");
    rig.play(100);
    let before = rig.engine.voices[0].state;
    rig.run("pause -v kick");
    assert!(!rig.engine.voices[0].state.active);
    rig.run("resume -v kick");
    let after = rig.engine.voices[0].state;
    assert_eq!(after.active, before.active);
    assert_eq!(after.position, before.position);
    assert_eq!(rig.play(1), vec![101, 101]);
}

#[test]
fn load_then_unload_leaves_nothing() {
    let mut rig = Rig::new(2);
    rig.run("tc clock b:90");
    rig.run("load snare -t c:clock");
    rig.run("seq snare -s 0,1");
    rig.run("start -v snare");
    rig.play(5);
    let mirror = rig.parser.engine_state.clone();
    let engine = rig.engine.clone();
    rig.run("load kick -t s:100");
    assert_eq!(rig.engine.voices.len(), 2);
    assert_ne!(rig.engine, engine);
    rig.run("unload kick");
    assert_eq!(rig.parser.engine_state, mirror);
    assert_eq!(rig.engine, engine);
}

#[test]
fn pause_then_resume_leaves_what_plays() {
    let mut rig = Rig::new(2);
    rig.run("tc clock b:90");
    rig.run("load snare");
    rig.run("load kick");
    rig.run("group band -v kick");
    for line in ["start -v snare", "start -g band", "start -t clock"] {
        rig.run(line);
    }
    rig.play(7);
    let engine = rig.engine.clone();
    for what in ["-v snare", "-g band", "-t clock", "-v band.kick"] {
        rig.run(&format!("pause {}", what));
        assert_ne!(rig.engine, engine);
        rig.run(&format!("resume {}", what));
        assert_eq!(rig.engine, engine);
    }
}

#[test]
fn only_the_owner_advances_a_tempo() {
    let mut rig = Rig::new(2);
    rig.run("tc clock s:10");
    rig.run("load kick -t s:10");
    rig.run("load snare -t s:10");
    rig.run("group band -t s:10 -v snare");
    rig.run("group rest -t s:10");
    rig.run("start -t clock");
    rig.run("start -v kick");
    rig.run("start -g band");
    rig.play(3);
    let counted = |link: TempoLink| match link {
        TempoLink::Own(t) => t.current,
        other => panic!("{:?}", other),
    };
    // three frames of two channels each
    assert_eq!(counted(rig.engine.voices[0].state.tempo), 6);
    assert_eq!(counted(rig.engine.groups[0].voices[0].state.tempo), 6);
    // the table: the context, the playing group's tempo, the resting group's
    let table: Vec<u64> = rig.engine.tempi.iter().map(|t| t.current).collect();
    assert_eq!(table, vec![0, 6, 0]);
    rig.run("stop -v kick");
    rig.play(2);
    assert_eq!(counted(rig.engine.voices[0].state.tempo), 0);
    let table: Vec<u64> = rig.engine.tempi.iter().map(|t| t.current).collect();
    assert_eq!(table, vec![0, 10, 0]);
}

#[test]
fn engine_refuses_what_it_does_not_have() {
    let engine = Conductor::prepare(2, tracks(), 48000);
    assert!(!engine.accepts(&Command::Unload(UnloadArgs { idx: 0 })));
    assert!(!engine.accepts(&Command::Start(StartArgs { idx: Idx::Voice(0) })));
    assert!(!engine.accepts(&Command::Start(StartArgs { idx: Idx::Member(0, 0) })));
    assert!(!engine.accepts(&Command::Load(LoadArgs { track_idx: 2, tempo_repr: TempoRepr::new(0) })));
    let reference = TempoRepr {
        idx: 0,
        owned: false,
        mode: TempoMode::Group,
        unit: TempoUnit::Samples,
        interval: fx(1),
    };
    assert!(!engine.accepts(&Command::Load(LoadArgs { track_idx: 0, tempo_repr: reference })));
    assert!(!engine.accepts(&Command::Group(GroupArgs {
        tempo: TempoRepr::new(0),
        vs_fs_ps: vec![(0, false, vec![])],
        order: vec![0],
    })));
    assert!(engine.accepts(&Command::Start(StartArgs { idx: Idx::Process(9) })));
    assert!(!engine.accepts(&Command::Sequencer(SeqArgs {
        idx: Idx::Tempo(0),
        tempo: TempoRepr::new(0),
        period: 4,
        steps: vec![],
        chance: vec![],
        jit: vec![],
        rng: X128P::new(1),
    })));
}

#[test]
fn quit_is_noted() {
    let mut rig = Rig::new(2);
    assert!(!rig.engine.quit);
    rig.run("quit");
    assert!(rig.engine.quit);
}

#[test]
fn voice_of_a_track_without_a_whole_frame() {
    let af = AudioFile::new("odd", "wav", 48000, 2, 16, vec![5]);
    let v = Voice::new(&af, TempoLink::Own(TempoState::new()));
    assert_eq!(v.state.end, 0);
    assert_eq!(v.channels, 2);
    assert_eq!(v.state.velocity, fx(1));
    assert_eq!(v.state.gain, fx(1));
}

#[test]
fn sample_places_in_a_channel_area() {
    // interleaved 16-bit stereo: 32 bits from frame to frame
    assert_eq!(byte_offset(0, 32, 0, 0), Some(0));
    assert_eq!(byte_offset(16, 32, 0, 0), Some(2));
    assert_eq!(byte_offset(16, 32, 100, 28), Some(2 + 128 * 4));
    assert_eq!(byte_offset(u32::MAX, u32::MAX, u64::MAX, u64::MAX), None);
}

#[test]
fn index_coherence_through_a_session() {
    let mut rig = Rig::new(2);
    let lines = [
        "load kick",
        "load snare",
        "tc clock b:120",
        "seq snare -t c:clock -s 0,2",
        "unload kick",
        "load kick -t c:clock",
        "group band -t c:clock -v kick",
        "seq band.kick -t g:band",
        "load kick",
        "start -v band.kick",
        "velocity band.kick 2",
        "group duo -v kick,snare",
        "start -g duo",
    ];
    for line in lines {
        rig.run(line);
        let m = &rig.parser.engine_state;
        let e = &rig.engine;
        assert_eq!(m.voices.len(), e.voices.len());
        assert_eq!(m.groups.len(), e.groups.len());
        assert_eq!(m.tempo_cons.len(), e.tempo_cons.len());
        for (i, v) in m.voices.iter().enumerate() {
            assert_eq!(v.item.idx, i);
            assert_eq!(v.item.processes.len(), e.voices[i].processes.len());
        }
        for (g, group) in m.groups.iter().enumerate() {
            assert_eq!(group.item.idx, g);
            assert_eq!(group.item.voices.len(), e.groups[g].voices.len());
            for (i, v) in group.item.voices.iter().enumerate() {
                assert_eq!(v.item.idx, i);
                assert_eq!(v.item.processes.len(), e.groups[g].voices[i].processes.len());
            }
        }
        for (c, t) in m.tempo_cons.iter().enumerate() {
            assert_eq!(t.item.idx, c);
            let tempo = e.tempi[e.tempo_cons[c]];
            assert_eq!((tempo.mode, tempo.unit), (t.item.mode, t.item.unit));
        }
        // every track that a voice is named after is the one that it plays
        for (i, v) in m.voices.iter().enumerate() {
            let name: String = v.name.iter().collect();
            let track = e.tracks.iter().find(|t| t.file_name == name).unwrap();
            assert_eq!(e.voices[i].samples, track.samples);
            match (v.item.tempo.owned, e.voices[i].state.tempo) {
                (true, TempoLink::Own(t)) => assert_eq!(t.mode, v.item.tempo.mode),
                (false, TempoLink::Shared(place)) => match v.item.tempo.mode {
                    TempoMode::Context => assert_eq!(place, e.tempo_cons[v.item.tempo.idx]),
                    TempoMode::Group => {
                        assert_eq!(place, e.groups[v.item.tempo.idx].state.tempo)
                    }
                    other => panic!("{:?}", other),
                },
                other => panic!("{:?}", other),
            }
        }
    }
    // kick stood behind snare at the top level and was named first
    assert_eq!(rig.engine.groups[1].voices[0].channels, 1);
    assert_eq!(rig.engine.groups[1].voices[1].channels, 2);
    assert_eq!(rig.parser.engine_state.groups[1].item.voices[0].name, vec!['k', 'i', 'c', 'k']);
    assert_eq!(rig.engine.groups[0].voices[0].state.velocity, fx(2));
}
