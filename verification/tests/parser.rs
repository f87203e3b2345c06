use blast::audio_processing::blast_rand::X128P;
use blast::audio_processing::blast_time::{TempoMode, TempoUnit};
use blast::audio_processing::commands::{
    CmdErr, Command, GroupArgs, Idx, LoadArgs, PauseArgs, QuitArgs, ResumeArgs, SeqArgs,
    StartArgs, StopArgs, TcArgs, TempoRepr, UnloadArgs, VelocityArgs,
};
use blast::audio_processing::fixed::{Fixed, ONE};
use blast::audio_processing::mirror::EngineState;
use blast::audio_processing::parser::CmdProcessor;
use blast::file_parsing::decode_helpers::AudioFile;

fn fx(whole: i64) -> Fixed {
    Fixed { raw: whole * ONE }
}

fn text(s: &str) -> Vec<char> {
    s.chars().collect()
}

fn tracks() -> Vec<AudioFile> {
    vec![
        AudioFile::new("kick", "wav", 48000, 1, 16, vec![0; 12000]),
        AudioFile::new("snare", "wav", 48000, 2, 16, vec![0; 24000]),
    ]
}

fn processor() -> CmdProcessor {
    CmdProcessor::new(EngineState::new(&tracks(), 2))
}

fn tbd() -> TempoRepr {
    TempoRepr {
        idx: 0,
        owned: true,
        mode: TempoMode::TBD,
        unit: TempoUnit::Samples,
        interval: fx(0),
    }
}

fn missing(arg: &str, cmd: &str) -> CmdErr {
    CmdErr::MissingArg { arg: arg.to_string(), cmd: cmd.to_string() }
}

fn invalid(arg: &str, cmd: &str) -> CmdErr {
    CmdErr::InvalidArg { arg: arg.to_string(), cmd: cmd.to_string() }
}

#[test]
fn load_makes_a_voice_of_the_track() {
    let mut p = processor();
    let cmd = p.parse("load kick", 1).unwrap();
    assert_eq!(cmd, Command::Load(LoadArgs { track_idx: 0, tempo_repr: tbd() }));
    let voices = &p.engine_state.voices;
    assert_eq!(voices.len(), 1);
    assert_eq!(voices[0].name, text("kick"));
    assert_eq!(voices[0].item.idx, 0);
    assert_eq!(voices[0].item.tempo.mode, TempoMode::TBD);
    let cmd = p.parse("load snare", 1).unwrap();
    assert_eq!(cmd, Command::Load(LoadArgs { track_idx: 1, tempo_repr: tbd() }));
    assert_eq!(p.engine_state.voices[1].item.idx, 1);
}

#[test]
fn load_takes_a_tempo() {
    let mut p = processor();
    let cmd = p.parse("load kick -t b:120", 1).unwrap();
    let tempo = TempoRepr {
        idx: 0,
        owned: true,
        mode: TempoMode::Voice,
        unit: TempoUnit::Bpm,
        interval: fx(120),
    };
    assert_eq!(cmd, Command::Load(LoadArgs { track_idx: 0, tempo_repr: tempo }));
    assert_eq!(p.engine_state.voices[0].item.tempo, tempo);
    p.parse("tc clock m:500", 1).unwrap();
    let cmd = p.parse("load snare --tempo c:clock", 1).unwrap();
    let reference = TempoRepr {
        idx: 0,
        owned: false,
        mode: TempoMode::Context,
        unit: TempoUnit::Millis,
        interval: fx(500),
    };
    assert_eq!(cmd, Command::Load(LoadArgs { track_idx: 1, tempo_repr: reference }));
}

#[test]
fn load_fails_as_it_should() {
    let mut p = processor();
    assert_eq!(p.parse("load", 1), Err(missing("name", "load")));
    assert_eq!(
        p.parse("load hat", 1),
        Err(CmdErr::NoItem { ty: "track".to_string(), name: "hat".to_string() })
    );
    p.parse("load kick", 1).unwrap();
    assert_eq!(
        p.parse("load kick", 1),
        Err(CmdErr::AlreadyIs { ty: "Voice".to_string(), name: "kick".to_string() })
    );
    assert_eq!(p.parse("load snare -t", 1), Err(missing("unit", "load -t/--tempo")));
    assert_eq!(p.parse("load snare -t x:5", 1), Err(invalid("x", "load -t")));
    assert_eq!(p.parse("load snare -t s:abc", 1), Err(invalid("abc", "load -t")));
    assert_eq!(p.parse("load snare -t s:0", 1), Err(invalid("0", "load -t")));
    assert_eq!(p.parse("load snare -t s:-4", 1), Err(invalid("-4", "load -t")));
    assert_eq!(p.parse("load snare -t s", 1), Err(CmdErr::TempoFormatting));
    assert_eq!(p.parse("load snare -x", 1), Err(invalid("-x", "load")));
    assert_eq!(
        p.parse("load snare -t c:nope", 1),
        Err(CmdErr::NoItem { ty: "TempoContext".to_string(), name: "nope".to_string() })
    );
    assert_eq!(
        p.parse("load snare -t g:nope", 1),
        Err(CmdErr::NoItem { ty: "Group".to_string(), name: "nope".to_string() })
    );
    // nothing that failed has changed the mirror
    assert_eq!(p.engine_state.voices.len(), 1);
}

#[test]
fn switches_address_by_place() {
    let mut p = processor();
    p.parse("load kick", 1).unwrap();
    p.parse("load snare", 1).unwrap();
    p.parse("tc clock b:120", 1).unwrap();
    p.parse("group band -v snare", 1).unwrap();
    assert_eq!(
        p.parse("start -v kick", 1),
        Ok(Command::Start(StartArgs { idx: Idx::Voice(0) }))
    );
    assert_eq!(
        p.parse("pause --voice band.snare", 1),
        Ok(Command::Pause(PauseArgs { idx: Idx::Member(0, 0) }))
    );
    assert_eq!(
        p.parse("resume -g band", 1),
        Ok(Command::Resume(ResumeArgs { idx: Idx::Group(0) }))
    );
    assert_eq!(
        p.parse("stop -t clock", 1),
        Ok(Command::Stop(StopArgs { idx: Idx::Tempo(0) }))
    );
    assert_eq!(p.parse("start", 1), Err(missing("type and name", "start")));
    assert_eq!(p.parse("pause -v", 1), Err(missing("type or name", "pause")));
    assert_eq!(p.parse("stop -x kick", 1), Err(missing("type", "-v/-g/-t")));
    assert_eq!(
        p.parse("start -v hat", 1),
        Err(CmdErr::NoVoice { name: "hat".to_string(), group: None })
    );
    assert_eq!(
        p.parse("start -v band.hat", 1),
        Err(CmdErr::NoVoice { name: "hat".to_string(), group: Some("band".to_string()) })
    );
    assert_eq!(
        p.parse("start -v crew.kick", 1),
        Err(CmdErr::NoItem { ty: "Group".to_string(), name: "crew".to_string() })
    );
    assert_eq!(
        p.parse("start -v a.b.c", 1),
        Err(CmdErr::Formatting {
            err: "Too many delimiters for format group.voice".to_string()
        })
    );
    assert_eq!(
        p.parse("start -g crew", 1),
        Err(CmdErr::NoItem { ty: "Group".to_string(), name: "crew".to_string() })
    );
    assert_eq!(
        p.parse("start -t tick", 1),
        Err(CmdErr::NoItem { ty: "TempoContext".to_string(), name: "tick".to_string() })
    );
}

#[test]
fn unload_moves_later_voices_up() {
    let mut p = processor();
    p.parse("load kick", 1).unwrap();
    p.parse("load snare", 1).unwrap();
    assert_eq!(p.parse("unload kick", 1), Ok(Command::Unload(UnloadArgs { idx: 0 })));
    assert_eq!(p.engine_state.voices.len(), 1);
    assert_eq!(p.engine_state.voices[0].name, text("snare"));
    assert_eq!(p.engine_state.voices[0].item.idx, 0);
    assert_eq!(
        p.parse("unload kick", 1),
        Err(CmdErr::NoVoice { name: "kick".to_string(), group: None })
    );
    assert_eq!(p.parse("start -v snare", 1), Ok(Command::Start(StartArgs { idx: Idx::Voice(0) })));
}

#[test]
fn velocity_reads_a_number() {
    let mut p = processor();
    p.parse("load snare", 1).unwrap();
    assert_eq!(
        p.parse("velocity snare -1.0", 1),
        Ok(Command::Velocity(VelocityArgs { idx: Idx::Voice(0), val: fx(-1) }))
    );
    assert_eq!(
        p.parse("velocity snare 0.5", 1),
        Ok(Command::Velocity(VelocityArgs { idx: Idx::Voice(0), val: Fixed { raw: ONE / 2 } }))
    );
    assert_eq!(p.parse("velocity snare", 1), Err(missing("value", "velocity")));
    assert_eq!(p.parse("velocity snare fast", 1), Err(invalid("fast", "velocity")));
    assert_eq!(
        p.parse("velocity hat 1", 1),
        Err(CmdErr::NoVoice { name: "hat".to_string(), group: None })
    );
}

#[test]
fn tempo_context_is_made() {
    let mut p = processor();
    let tempo = TempoRepr {
        idx: 0,
        owned: true,
        mode: TempoMode::Context,
        unit: TempoUnit::Bpm,
        interval: fx(120),
    };
    assert_eq!(p.parse("tc clock b:120", 1), Ok(Command::Tc(TcArgs { tempo })));
    assert_eq!(p.engine_state.tempo_cons.len(), 1);
    assert_eq!(p.engine_state.tempo_cons[0].name, text("clock"));
    assert_eq!(p.engine_state.tempo_cons[0].item, tempo);
    let second = p.parse("tempocon tick s:100", 1).unwrap();
    assert_eq!(
        second,
        Command::Tc(TcArgs {
            tempo: TempoRepr {
                idx: 1,
                owned: true,
                mode: TempoMode::Context,
                unit: TempoUnit::Samples,
                interval: fx(100),
            }
        })
    );
    assert_eq!(p.parse("tc", 1), Err(missing("name", "tempocon")));
    assert_eq!(p.parse("tc beat", 1), Err(missing("tempo", "tempocon")));
    assert_eq!(p.parse("tc beat b", 1), Err(CmdErr::TempoFormatting));
    assert_eq!(p.parse("tc beat b:1:2", 1), Err(CmdErr::TempoFormatting));
    assert_eq!(p.parse("tc beat c:clock", 1), Err(invalid("c", "-t/--tempo")));
    assert_eq!(p.parse("tc beat b:x", 1), Err(invalid("x", "-t/--tempo")));
    assert_eq!(
        p.parse("tc clock b:90", 1),
        Err(CmdErr::AlreadyIs { ty: "TempoContext".to_string(), name: "clock".to_string() })
    );
}

#[test]
fn group_of_voices_named_highest_place_first() {
    let mut p = processor();
    p.parse("load kick", 1).unwrap();
    p.parse("load snare", 1).unwrap();
    match p.parse("group band -v snare,kick", 1).unwrap() {
        Command::Group(x) => {
            assert_eq!(x.vs_fs_ps, vec![(1, true, vec![]), (0, true, vec![])]);
            assert_eq!(x.order, vec![0, 1]);
        }
        other => panic!("{:?}", other),
    }
    let band = &p.engine_state.groups[0].item.voices;
    assert_eq!((band[0].name.clone(), band[0].item.idx), (text("snare"), 0));
    assert_eq!((band[1].name.clone(), band[1].item.idx), (text("kick"), 1));
}

#[test]
fn group_names_voices_highest_place_first() {
    let mut p = processor();
    p.parse("load kick", 1).unwrap();
    p.parse("load snare", 1).unwrap();
    let cmd = p.parse("group band -t b:60 -v kick,snare", 1).unwrap();
    let tempo = TempoRepr {
        idx: 0,
        owned: true,
        mode: TempoMode::Group,
        unit: TempoUnit::Bpm,
        interval: fx(60),
    };
    assert_eq!(
        cmd,
        Command::Group(GroupArgs {
            tempo,
            vs_fs_ps: vec![(1, true, vec![]), (0, true, vec![])],
            order: vec![1, 0],
        })
    );
    assert_eq!(p.engine_state.voices.len(), 0);
    assert_eq!(p.engine_state.groups.len(), 1);
    let band = &p.engine_state.groups[0];
    assert_eq!(band.name, text("band"));
    assert_eq!(band.item.idx, 0);
    assert_eq!(band.item.tempo, tempo);
    assert_eq!(band.item.voices.len(), 2);
    assert_eq!(band.item.voices[0].name, text("kick"));
    assert_eq!(band.item.voices[1].name, text("snare"));
    let inherited = TempoRepr { owned: false, ..tempo };
    for (i, v) in band.item.voices.iter().enumerate() {
        assert_eq!(v.item.idx, i);
        assert_eq!(v.item.tempo, inherited);
    }
}

#[test]
fn group_renumbers_what_stays() {
    let files = vec![
        AudioFile::new("a", "wav", 48000, 1, 16, vec![0; 4]),
        AudioFile::new("b", "wav", 48000, 1, 16, vec![0; 4]),
        AudioFile::new("c", "wav", 48000, 1, 16, vec![0; 4]),
        AudioFile::new("d", "wav", 48000, 1, 16, vec![0; 4]),
        AudioFile::new("e", "wav", 48000, 1, 16, vec![0; 4]),
    ];
    let mut p = CmdProcessor::new(EngineState::new(&files, 2));
    for name in ["a", "b", "c", "d", "e"] {
        p.parse(&format!("load {} -t s:100", name), 1).unwrap();
    }
    let cmd = p.parse("group g -v d,b", 1).unwrap();
    let tempo = TempoRepr {
        idx: 0,
        owned: true,
        mode: TempoMode::Group,
        unit: TempoUnit::Bpm,
        interval: fx(240),
    };
    assert_eq!(
        cmd,
        Command::Group(GroupArgs {
            tempo,
            vs_fs_ps: vec![(3, false, vec![]), (1, false, vec![])],
            order: vec![0, 1],
        })
    );
    let left: Vec<(Vec<char>, usize)> =
        p.engine_state.voices.iter().map(|v| (v.name.clone(), v.item.idx)).collect();
    assert_eq!(left, vec![(text("a"), 0), (text("c"), 1), (text("e"), 2)]);
    // in the group the voices stand in the order given
    let inside: Vec<(Vec<char>, usize)> = p.engine_state.groups[0]
        .item
        .voices
        .iter()
        .map(|v| (v.name.clone(), v.item.idx))
        .collect();
    assert_eq!(inside, vec![(text("d"), 0), (text("b"), 1)]);
    // a voice with a tempo of its own keeps it
    assert_eq!(p.engine_state.groups[0].item.voices[0].item.tempo.mode, TempoMode::Voice);
}

#[test]
fn group_of_the_first_and_the_third_of_four() {
    let files: Vec<AudioFile> = ["a", "b", "c", "d"]
        .iter()
        .map(|name| AudioFile::new(name, "wav", 48000, 1, 16, vec![0; 4]))
        .collect();
    let mut p = CmdProcessor::new(EngineState::new(&files, 2));
    for name in ["a", "b", "c", "d"] {
        p.parse(&format!("load {}", name), 1).unwrap();
    }
    let cmd = p.parse("group g -t b:60 -v a,c", 1).unwrap();
    match cmd {
        Command::Group(x) => {
            assert_eq!(x.vs_fs_ps, vec![(2, true, vec![]), (0, true, vec![])]);
            assert_eq!(x.order, vec![1, 0]);
        }
        other => panic!("{:?}", other),
    }
    let left: Vec<(Vec<char>, usize)> =
        p.engine_state.voices.iter().map(|v| (v.name.clone(), v.item.idx)).collect();
    assert_eq!(left, vec![(text("b"), 0), (text("d"), 1)]);
    let inside: Vec<(Vec<char>, usize)> = p.engine_state.groups[0]
        .item
        .voices
        .iter()
        .map(|v| (v.name.clone(), v.item.idx))
        .collect();
    assert_eq!(inside, vec![(text("a"), 0), (text("c"), 1)]);
}

#[test]
fn words_part_at_any_white_space() {
    let mut p = processor();
    assert!(p.parse("load\u{a0}kick", 1).is_err());
    assert!(p.parse("load kick\t-t\u{2003}s:100\u{3000}", 1).is_ok());
    assert_eq!(p.engine_state.voices[0].item.tempo.interval, fx(100));
    p.parse("load snare", 1).unwrap();
    assert!(p.parse("group band \u{85} -v\u{b}kick,snare\u{c}", 1).is_ok());
    assert_eq!(p.engine_state.groups[0].item.voices.len(), 2);
}

#[test]
fn group_fails_as_it_should() {
    let mut p = processor();
    p.parse("load kick", 1).unwrap();
    p.parse("load snare", 1).unwrap();
    assert_eq!(p.parse("group", 1), Err(missing("name", "group")));
    assert_eq!(p.parse("group band -t", 1), Err(missing("arguments", "group -t")));
    assert_eq!(p.parse("group band -v", 1), Err(missing("arguments", "group -v")));
    assert_eq!(p.parse("group band -q 1", 1), Err(invalid("-q", "group")));
    assert_eq!(p.parse("group band -t g:x", 1), Err(invalid("g", "group -t")));
    assert_eq!(
        p.parse("group band -v kick,hat", 1),
        Err(CmdErr::NoVoice { name: "hat".to_string(), group: None })
    );
    assert_eq!(
        p.parse("group band -v kick,kick", 1),
        Err(CmdErr::NoVoice { name: "kick".to_string(), group: None })
    );
    // the voices are still at the top level
    assert_eq!(p.engine_state.voices.len(), 2);
    assert_eq!(p.engine_state.groups.len(), 0);
    p.parse("group band -v kick", 1).unwrap();
    assert_eq!(
        p.parse("group band -v snare", 1),
        Err(CmdErr::AlreadyIs { ty: "Group".to_string(), name: "band".to_string() })
    );
}

#[test]
fn group_rebinds_processes_without_a_tempo() {
    let mut p = processor();
    p.parse("load kick", 1).unwrap();
    p.parse("seq kick -s 0,1", 5).unwrap();
    p.parse("seq kick -t s:100 -s 0", 5).unwrap();
    p.parse("seq kick -t v -s 0", 5).unwrap();
    let cmd = p.parse("group band -t s:1000 -v kick", 1).unwrap();
    let tempo = TempoRepr {
        idx: 0,
        owned: true,
        mode: TempoMode::Group,
        unit: TempoUnit::Samples,
        interval: fx(1000),
    };
    assert_eq!(
        cmd,
        Command::Group(GroupArgs { tempo, vs_fs_ps: vec![(0, true, vec![0, 2])], order: vec![0] })
    );
    let kick = &p.engine_state.groups[0].item.voices[0].item;
    let inherited = TempoRepr { owned: false, ..tempo };
    assert_eq!(kick.processes[0].tempo, Some(inherited));
    assert_eq!(kick.processes[1].tempo.unwrap().mode, TempoMode::Process);
    assert_eq!(kick.processes[2].tempo, Some(inherited));
}

#[test]
fn sequencer_defaults() {
    let mut p = processor();
    p.parse("load kick", 1).unwrap();
    let cmd = p.parse("seq kick", 42).unwrap();
    assert_eq!(
        cmd,
        Command::Sequencer(SeqArgs {
            idx: Idx::Voice(0),
            tempo: tbd(),
            period: 4,
            steps: vec![],
            chance: vec![],
            jit: vec![],
            rng: X128P::new(42),
        })
    );
    let kick = &p.engine_state.voices[0].item;
    assert_eq!(kick.processes.len(), 1);
    assert_eq!(kick.processes[0].idx, 0);
    assert_eq!(kick.proc_tempi.len(), 0);
}

#[test]
fn sequencer_with_all_options() {
    let mut p = processor();
    p.parse("load kick", 1).unwrap();
    let cmd = p.parse("seq kick -t b:120 -p 4 -s 0,1,2,3 -c 0,0,0,0", 9).unwrap();
    let tempo = TempoRepr {
        idx: 0,
        owned: true,
        mode: TempoMode::Process,
        unit: TempoUnit::Bpm,
        interval: fx(120),
    };
    assert_eq!(
        cmd,
        Command::Sequencer(SeqArgs {
            idx: Idx::Voice(0),
            tempo,
            period: 4,
            steps: vec![fx(0), fx(1), fx(2), fx(3)],
            chance: vec![fx(0); 4],
            jit: vec![fx(100); 4],
            rng: X128P::new(9),
        })
    );
    let kick = &p.engine_state.voices[0].item;
    assert_eq!(kick.proc_tempi, vec![tempo]);
    // a second sequencer stands behind the first, with the next tempo
    let cmd = p.parse("seq kick -t s:10 -p 8", 9).unwrap();
    match cmd {
        Command::Sequencer(a) => {
            assert_eq!(a.tempo.idx, 1);
            assert_eq!(a.period, 8);
        }
        other => panic!("{:?}", other),
    }
    assert_eq!(p.engine_state.voices[0].item.processes[1].idx, 1);
}

fn chance_of(line: &str) -> Result<Vec<Fixed>, CmdErr> {
    let mut p = processor();
    p.parse("load kick", 1).unwrap();
    match p.parse(line, 1)? {
        Command::Sequencer(a) => Ok(a.chance),
        other => panic!("{:?}", other),
    }
}

#[test]
fn chance_range() {
    assert_eq!(
        chance_of("seq kick -s 0,1,2,3,4,5,6,7 -c 2-5:50"),
        Ok(vec![fx(100), fx(100), fx(50), fx(50), fx(50), fx(50), fx(100), fx(100)])
    );
    assert_eq!(
        chance_of("seq kick -s 0,1,2,3 -c 3-1:25"),
        Ok(vec![fx(100), fx(25), fx(25), fx(25)])
    );
}

#[test]
fn chance_tokens() {
    assert_eq!(chance_of("seq kick -s 0,1,2 -c 10,_,30"), Ok(vec![fx(10), fx(100), fx(30)]));
    assert_eq!(chance_of("seq kick -s 0,1,2 -c 10"), Ok(vec![fx(10), fx(100), fx(100)]));
    assert_eq!(chance_of("seq kick -s 0,1,2 -c a:5"), Ok(vec![fx(5), fx(5), fx(5)]));
    assert_eq!(chance_of("seq kick -s 0,1,2 -c 2:5"), Ok(vec![fx(100), fx(100), fx(5)]));
    assert_eq!(
        chance_of("seq kick -s 0,1,2 -c 7,8,9,10,11"),
        Ok(vec![fx(7), fx(8), fx(9)])
    );
    assert_eq!(
        chance_of("seq kick -s 0,0.5,1 -c 0.5:75,20"),
        Ok(vec![fx(100), fx(20), fx(100)])
    );
    assert_eq!(chance_of("seq kick -s 0,1 -s 2 -c a:1"), Ok(vec![fx(1), fx(1), fx(1)]));
}

#[test]
fn chance_fails_as_it_should() {
    let formatting = |err: &str| Err(CmdErr::Formatting { err: err.to_string() });
    assert_eq!(
        chance_of("seq kick -c 1"),
        formatting("Must provide arguments to -s/--steps before -c/--chance or -j/--jitter")
    );
    assert_eq!(
        chance_of("seq kick -j 1"),
        formatting("Must provide arguments to -s/--steps before -c/--chance or -j/--jitter")
    );
    assert_eq!(chance_of("seq kick -s 0,1 -c"), Err(missing("value", "seq -c")));
    assert_eq!(chance_of("seq kick -s 0,1 -j"), Err(missing("value", "seq -j")));
    assert_eq!(chance_of("seq kick -s 0,1 -c x"), Err(invalid("x", "seq -c")));
    assert_eq!(
        chance_of("seq kick -s 0,1 -c 1:2:3"),
        formatting("Indexed chance arguments must be formatted beat:chance")
    );
    assert_eq!(chance_of("seq kick -s 0,1 -c 1:x"), Err(invalid("x", "seq -c")));
    assert_eq!(chance_of("seq kick -s 0,1 -c x:1"), Err(invalid("x", "seq -c")));
    assert_eq!(chance_of("seq kick -s 0,1 -c 5:1"), formatting("Invalid index for seq -c"));
    assert_eq!(
        chance_of("seq kick -s 0,1 -c 0-1"),
        formatting("Ranged chance arguments must be formatted range:chance")
    );
    assert_eq!(
        chance_of("seq kick -s 0,1 -c 0-1-2:5"),
        formatting("Ranges must be formatted lower-upper")
    );
    assert_eq!(chance_of("seq kick -s 0,1 -c 0-b:5"), Err(invalid("b", "seq -c")));
    assert_eq!(chance_of("seq kick -s 0,1 -c a-1:5"), Err(invalid("a", "seq -c")));
    assert_eq!(chance_of("seq kick -s 0,1 -c 0-1:z"), Err(invalid("z", "seq -c")));
    assert_eq!(
        chance_of("seq kick -s 0,1 -c 4-5:50"),
        formatting("seq -c range applies to nothing")
    );
}

#[test]
fn sequencer_fails_as_it_should() {
    let mut p = processor();
    p.parse("load kick", 1).unwrap();
    assert_eq!(p.parse("seq", 1), Err(missing("name", "seq")));
    assert_eq!(
        p.parse("seq hat", 1),
        Err(CmdErr::NoVoice { name: "hat".to_string(), group: None })
    );
    assert_eq!(p.parse("seq kick -t", 1), Err(missing("unit:interval", "seq -t")));
    assert_eq!(p.parse("seq kick -t b", 1), Err(CmdErr::TempoFormatting));
    assert_eq!(p.parse("seq kick -t q:1", 1), Err(invalid("q", "seq -t")));
    assert_eq!(p.parse("seq kick -p", 1), Err(missing("value", "seq -p")));
    assert_eq!(p.parse("seq kick -p four", 1), Err(invalid("four", "seq -p")));
    assert_eq!(p.parse("seq kick -s", 1), Err(missing("value", "seq -s")));
    assert_eq!(p.parse("seq kick -s 0,x", 1), Err(invalid("x", "seq -s")));
    assert_eq!(p.parse("seq kick -z", 1), Err(invalid("-z", "seq")));
    assert_eq!(p.engine_state.voices[0].item.processes.len(), 0);
}

#[test]
fn sequencer_follows_its_voice() {
    let mut p = processor();
    p.parse("load kick -t s:50", 1).unwrap();
    let cmd = p.parse("seq kick -t v", 1).unwrap();
    match cmd {
        Command::Sequencer(a) => {
            assert!(!a.tempo.owned);
            assert_eq!(a.tempo.mode, TempoMode::Voice);
            assert_eq!(a.tempo.interval, fx(50));
        }
        other => panic!("{:?}", other),
    }
}

#[test]
fn quit_and_unknown_verbs() {
    let mut p = processor();
    assert_eq!(p.parse("quit", 1), Ok(Command::Quit(QuitArgs {})));
    assert_eq!(p.parse("q", 1), Ok(Command::Quit(QuitArgs {})));
    assert_eq!(p.parse("dance now", 1), Err(CmdErr::NoCmd { cmd: "dance".to_string() }));
    assert_eq!(p.parse("", 1), Err(CmdErr::NoCmd { cmd: "".to_string() }));
    assert_eq!(p.parse(" load kick", 1), Err(CmdErr::NoCmd { cmd: "".to_string() }));
}

#[test]
fn errors_are_worded() {
    assert_eq!(
        CmdErr::TempoFormatting.message(),
        "-t/--tempo must be formatted as unit:interval"
    );
    assert_eq!(missing("name", "load").message(), "Missing name for 'load'");
    assert_eq!(invalid("x", "seq -c").message(), "Invalid argument 'x' for 'seq -c'");
    assert_eq!(
        CmdErr::AlreadyIs { ty: "Voice".to_string(), name: "kick".to_string() }.message(),
        "Already a Voice called 'kick'"
    );
    assert_eq!(CmdErr::NoCmd { cmd: "dance".to_string() }.message(), "Invalid command 'dance'");
    assert_eq!(
        CmdErr::NoItem { ty: "Group".to_string(), name: "band".to_string() }.message(),
        "Couldn't find Group 'band'"
    );
    assert_eq!(
        CmdErr::NoVoice { name: "hat".to_string(), group: None }.message(),
        "Couldn't find Voice 'hat'"
    );
    assert_eq!(
        CmdErr::NoVoice { name: "hat".to_string(), group: Some("band".to_string()) }.message(),
        "Couldn't find Voice 'hat' in Group 'band'"
    );
    assert_eq!(CmdErr::Formatting { err: "as it is".to_string() }.message(), "as it is");
    assert_eq!(CmdErr::QueueFull.message(), "Command queue full");
}

#[test]
fn mirror_takes_the_last_of_two_files_of_one_name() {
    let files = vec![
        AudioFile::new("a", "wav", 48000, 1, 16, vec![]),
        AudioFile::new("b", "wav", 48000, 1, 16, vec![]),
        AudioFile::new("a", "aiff", 48000, 2, 16, vec![]),
    ];
    let es = EngineState::new(&files, 2);
    assert_eq!(es.tracks.len(), 2);
    assert_eq!(es.tracks[0].name, text("a"));
    assert_eq!(es.tracks[0].item.idx, 2);
    assert_eq!(es.tracks[1].item.idx, 1);
    assert_eq!(es.out_channels, 2);
}
