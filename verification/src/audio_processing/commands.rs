//! Commands: what the command thread hands to the audio thread, the errors
//! that a command line can end in, and the queue between the two threads.
//!
//! A command addresses voices, groups and tempo contexts by their place in
//! the engine's lists, never by name.

use vstd::prelude::*;
use vstd::string::*;
use crate::audio_processing::blast_rand::X128P;
use crate::audio_processing::blast_time::{TempoMode, TempoUnit};
use crate::audio_processing::fixed::Fixed;
use crate::audio_processing::spsc_q::{SpscQueue, spec_pop, spec_push};
use crate::audio_processing::text::to_string;

verus! {

/// The place of something in the engine: a tempo context, a voice of the top
/// level, a process, a group, or the voice at `.1` in the group at `.0`.
#[derive(Clone, Copy, Debug, PartialEq, Eq, Structural)]
pub enum Idx {
    Tempo(usize),
    Voice(usize),
    Process(usize),
    Group(usize),
    Member(usize, usize),
}

/// A tempo as the command thread describes it. `owned` says whether the
/// engine makes a new tempo of this mode, unit and interval, or refers to
/// the tempo of the group or context at `idx`, or to that of the voice which
/// a process belongs to.
#[derive(Clone, Copy, Debug, PartialEq, Eq, Structural)]
pub struct TempoRepr {
    pub idx: usize,
    pub owned: bool,
    pub mode: TempoMode,
    pub unit: TempoUnit,
    pub interval: Fixed,
}

impl TempoRepr {
    /// An owned tempo without mode or interval.
    pub open spec fn spec_new(idx: usize) -> TempoRepr {
        TempoRepr {
            idx,
            owned: true,
            mode: TempoMode::TBD,
            unit: TempoUnit::Samples,
            interval: Fixed { raw: 0 },
        }
    }

    /// A reference to the tempo that `other` describes.
    pub open spec fn spec_clone_owner(other: TempoRepr) -> TempoRepr {
        TempoRepr { owned: false, ..other }
    }

    pub fn new(idx: usize) -> (r: TempoRepr)
        ensures
            r == Self::spec_new(idx),
    {
        TempoRepr {
            idx,
            owned: true,
            mode: TempoMode::TBD,
            unit: TempoUnit::Samples,
            interval: Fixed { raw: 0 },
        }
    }

    /// A copy of the description.
    pub fn clone(other: &TempoRepr) -> (r: TempoRepr)
        ensures
            r == *other,
    {
        TempoRepr {
            idx: other.idx,
            owned: other.owned,
            mode: other.mode,
            unit: other.unit,
            interval: other.interval,
        }
    }

    /// A reference to the tempo that `other` describes.
    pub fn clone_owner(other: &TempoRepr) -> (r: TempoRepr)
        ensures
            r == Self::spec_clone_owner(*other),
    {
        TempoRepr {
            idx: other.idx,
            owned: false,
            mode: other.mode,
            unit: other.unit,
            interval: other.interval,
        }
    }

    /// Gives the description its mode, unit and interval.
    pub fn init(&mut self, mode: TempoMode, unit: TempoUnit, interval: Fixed)
        ensures
            *final(self) == (TempoRepr { mode, unit, interval, ..*old(self) }),
    {
        self.mode = mode;
        self.unit = unit;
        self.interval = interval;
    }
}

/// `load`: the track to play and the tempo of the new voice.
#[derive(Debug, Clone, Copy, PartialEq)]
pub struct LoadArgs {
    pub track_idx: usize,
    pub tempo_repr: TempoRepr,
}

/// `start`: what to switch on from the start.
#[derive(Debug, Clone, Copy, PartialEq)]
pub struct StartArgs {
    pub idx: Idx,
}

/// `pause`: what to switch off where it is.
#[derive(Debug, Clone, Copy, PartialEq)]
pub struct PauseArgs {
    pub idx: Idx,
}

/// `resume`: what to switch on where it is.
#[derive(Debug, Clone, Copy, PartialEq)]
pub struct ResumeArgs {
    pub idx: Idx,
}

/// `stop`: what to switch off and set back to the start.
#[derive(Debug, Clone, Copy, PartialEq)]
pub struct StopArgs {
    pub idx: Idx,
}

/// `unload`: the place at the top level of the voice to remove.
#[derive(Debug, Clone, Copy, PartialEq)]
pub struct UnloadArgs {
    pub idx: usize,
}

/// `velocity`: the voice and its new velocity.
#[derive(Debug, Clone, Copy, PartialEq)]
pub struct VelocityArgs {
    pub idx: Idx,
    pub val: Fixed,
}

/// A new group: its tempo and, for each voice that moves into it, the
/// voice's place at the top level, whether the voice takes the group's
/// tempo, and the places of its processes that do. The voices stand highest
/// place first, so that taking one out moves none of those that follow.
/// `order` says where in this list each voice of the group is found: the
/// voice that stands `i`-th in the group, which is the voice that was named
/// `i`-th, is the one at `order[i]`.
#[derive(Debug, Clone, PartialEq)]
pub struct GroupArgs {
    pub tempo: TempoRepr,
    pub vs_fs_ps: Vec<(usize, bool, Vec<usize>)>,
    pub order: Vec<usize>,
}

/// `tc`: the tempo of the new tempo context.
#[derive(Debug, Clone, Copy, PartialEq)]
pub struct TcArgs {
    pub tempo: TempoRepr,
}

/// `seq`: the voice or group that gets a sequencer, and the sequencer's tempo,
/// beats to the bar, steps, chances, jitters and random numbers.
#[derive(Debug, Clone, PartialEq)]
pub struct SeqArgs {
    pub idx: Idx,
    pub tempo: TempoRepr,
    pub period: usize,
    pub steps: Vec<Fixed>,
    pub chance: Vec<Fixed>,
    pub jit: Vec<Fixed>,
    pub rng: X128P,
}

/// `quit`: nothing to say.
#[derive(Debug, Clone, Copy, PartialEq)]
pub struct QuitArgs {}

/// What the audio thread is told to do.
#[derive(Debug, Clone, PartialEq)]
pub enum Command {
    Load(LoadArgs),
    Start(StartArgs),
    Pause(PauseArgs),
    Resume(ResumeArgs),
    Stop(StopArgs),
    Unload(UnloadArgs),
    Velocity(VelocityArgs),
    Group(GroupArgs),
    Tc(TcArgs),
    Sequencer(SeqArgs),
    Quit(QuitArgs),
}

/// One voice of a [`GroupArgs`], as a value.
pub struct MoveView {
    pub voice: usize,
    pub inherit: bool,
    pub procs: Seq<usize>,
}

/// A command as a value: sequences in place of vectors.
pub enum CommandView {
    Load { track_idx: usize, tempo: TempoRepr },
    Start { idx: Idx },
    Pause { idx: Idx },
    Resume { idx: Idx },
    Stop { idx: Idx },
    Unload { place: usize },
    Velocity { idx: Idx, val: Fixed },
    Group { tempo: TempoRepr, moves: Seq<MoveView>, order: Seq<usize> },
    Tc { tempo: TempoRepr },
    Sequencer {
        idx: Idx,
        tempo: TempoRepr,
        period: usize,
        steps: Seq<Fixed>,
        chance: Seq<Fixed>,
        jit: Seq<Fixed>,
        rng: X128P,
    },
    Quit,
}

/// The moves that a vector of triples stands for.
pub open spec fn moves_of(v: Seq<(usize, bool, Vec<usize>)>) -> Seq<MoveView> {
    Seq::new(v.len(), |i: int| MoveView { voice: v[i].0, inherit: v[i].1, procs: v[i].2@ })
}

impl View for Command {
    type V = CommandView;

    open spec fn view(&self) -> CommandView {
        match *self {
            Command::Load(a) => CommandView::Load { track_idx: a.track_idx, tempo: a.tempo_repr },
            Command::Start(a) => CommandView::Start { idx: a.idx },
            Command::Pause(a) => CommandView::Pause { idx: a.idx },
            Command::Resume(a) => CommandView::Resume { idx: a.idx },
            Command::Stop(a) => CommandView::Stop { idx: a.idx },
            Command::Unload(a) => CommandView::Unload { place: a.idx },
            Command::Velocity(a) => CommandView::Velocity { idx: a.idx, val: a.val },
            Command::Group(a) => CommandView::Group {
                tempo: a.tempo,
                moves: moves_of(a.vs_fs_ps@),
                order: a.order@,
            },
            Command::Tc(a) => CommandView::Tc { tempo: a.tempo },
            Command::Sequencer(a) => CommandView::Sequencer {
                idx: a.idx,
                tempo: a.tempo,
                period: a.period,
                steps: a.steps@,
                chance: a.chance@,
                jit: a.jit@,
                rng: a.rng,
            },
            Command::Quit(_) => CommandView::Quit,
        }
    }
}

/// Why a command line gave no command, or why a command was not queued.
#[derive(Debug, Clone, PartialEq, Eq)]
pub enum CmdErr {
    TempoFormatting,
    Formatting { err: String },
    MissingArg { arg: String, cmd: String },
    InvalidArg { arg: String, cmd: String },
    AlreadyIs { ty: String, name: String },
    NoCmd { cmd: String },
    NoItem { ty: String, name: String },
    NoVoice { name: String, group: Option<String> },
    QueueFull,
}

/// An error as a value: character sequences in place of strings.
pub enum CmdErrView {
    TempoFormatting,
    Formatting { err: Seq<char> },
    MissingArg { arg: Seq<char>, cmd: Seq<char> },
    InvalidArg { arg: Seq<char>, cmd: Seq<char> },
    AlreadyIs { ty: Seq<char>, name: Seq<char> },
    NoCmd { cmd: Seq<char> },
    NoItem { ty: Seq<char>, name: Seq<char> },
    NoVoice { name: Seq<char>, group: Option<Seq<char>> },
    QueueFull,
}

impl View for CmdErr {
    type V = CmdErrView;

    open spec fn view(&self) -> CmdErrView {
        match *self {
            CmdErr::TempoFormatting => CmdErrView::TempoFormatting,
            CmdErr::Formatting { err } => CmdErrView::Formatting { err: err@ },
            CmdErr::MissingArg { arg, cmd } => CmdErrView::MissingArg { arg: arg@, cmd: cmd@ },
            CmdErr::InvalidArg { arg, cmd } => CmdErrView::InvalidArg { arg: arg@, cmd: cmd@ },
            CmdErr::AlreadyIs { ty, name } => CmdErrView::AlreadyIs { ty: ty@, name: name@ },
            CmdErr::NoCmd { cmd } => CmdErrView::NoCmd { cmd: cmd@ },
            CmdErr::NoItem { ty, name } => CmdErrView::NoItem { ty: ty@, name: name@ },
            CmdErr::NoVoice { name, group } => CmdErrView::NoVoice {
                name: name@,
                group: match group {
                    Some(g) => Some(g@),
                    None => None,
                },
            },
            CmdErr::QueueFull => CmdErrView::QueueFull,
        }
    }
}

impl CmdErrView {
    /// The sentence that tells a user of the error.
    pub open spec fn message(self) -> Seq<char> {
        match self {
            CmdErrView::TempoFormatting => "-t/--tempo must be formatted as unit:interval"@,
            CmdErrView::Formatting { err } => err,
            CmdErrView::MissingArg { arg, cmd } => "Missing "@ + arg + " for '"@ + cmd + "'"@,
            CmdErrView::InvalidArg { arg, cmd } => "Invalid argument '"@ + arg + "' for '"@ + cmd
                + "'"@,
            CmdErrView::AlreadyIs { ty, name } => "Already a "@ + ty + " called '"@ + name + "'"@,
            CmdErrView::NoCmd { cmd } => "Invalid command '"@ + cmd + "'"@,
            CmdErrView::NoItem { ty, name } => "Couldn't find "@ + ty + " '"@ + name + "'"@,
            CmdErrView::NoVoice { name, group } => match group {
                Some(g) => "Couldn't find Voice '"@ + name + "' in Group '"@ + g + "'"@,
                None => "Couldn't find Voice '"@ + name + "'"@,
            },
            CmdErrView::QueueFull => "Command queue full"@,
        }
    }
}

impl CmdErr {
    /// The sentence that tells a user of the error.
    pub fn message(&self) -> (r: String)
        ensures
            r@ == self@.message(),
    {
        match self {
            CmdErr::TempoFormatting => String::from_str(
                "-t/--tempo must be formatted as unit:interval",
            ),
            CmdErr::Formatting { err } => err.clone(),
            CmdErr::MissingArg { arg, cmd } => String::from_str("Missing ").concat(
                arg.as_str(),
            ).concat(" for '").concat(cmd.as_str()).concat("'"),
            CmdErr::InvalidArg { arg, cmd } => String::from_str("Invalid argument '").concat(
                arg.as_str(),
            ).concat("' for '").concat(cmd.as_str()).concat("'"),
            CmdErr::AlreadyIs { ty, name } => String::from_str("Already a ").concat(
                ty.as_str(),
            ).concat(" called '").concat(name.as_str()).concat("'"),
            CmdErr::NoCmd { cmd } => String::from_str("Invalid command '").concat(
                cmd.as_str(),
            ).concat("'"),
            CmdErr::NoItem { ty, name } => String::from_str("Couldn't find ").concat(
                ty.as_str(),
            ).concat(" '").concat(name.as_str()).concat("'"),
            CmdErr::NoVoice { name, group } => match group {
                Some(g) => String::from_str("Couldn't find Voice '").concat(
                    name.as_str(),
                ).concat("' in Group '").concat(g.as_str()).concat("'"),
                None => String::from_str("Couldn't find Voice '").concat(name.as_str()).concat(
                    "'",
                ),
            },
            CmdErr::QueueFull => String::from_str("Command queue full"),
        }
    }

    /// A `Formatting` error with the text `err`.
    pub fn formatting(err: &str) -> (r: CmdErr)
        ensures
            r@ == (CmdErrView::Formatting { err: err@ }),
    {
        CmdErr::Formatting { err: String::from_str(err) }
    }

    /// A `MissingArg` error.
    pub fn missing(arg: &str, cmd: &str) -> (r: CmdErr)
        ensures
            r@ == (CmdErrView::MissingArg { arg: arg@, cmd: cmd@ }),
    {
        CmdErr::MissingArg { arg: String::from_str(arg), cmd: String::from_str(cmd) }
    }

    /// An `InvalidArg` error.
    pub fn invalid(arg: &Vec<char>, cmd: &str) -> (r: CmdErr)
        ensures
            r@ == (CmdErrView::InvalidArg { arg: arg@, cmd: cmd@ }),
    {
        CmdErr::InvalidArg { arg: to_string(arg), cmd: String::from_str(cmd) }
    }

    /// An `AlreadyIs` error.
    pub fn already(ty: &str, name: &Vec<char>) -> (r: CmdErr)
        ensures
            r@ == (CmdErrView::AlreadyIs { ty: ty@, name: name@ }),
    {
        CmdErr::AlreadyIs { ty: String::from_str(ty), name: to_string(name) }
    }

    /// A `NoCmd` error.
    pub fn no_cmd(cmd: &Vec<char>) -> (r: CmdErr)
        ensures
            r@ == (CmdErrView::NoCmd { cmd: cmd@ }),
    {
        CmdErr::NoCmd { cmd: to_string(cmd) }
    }

    /// A `NoItem` error.
    pub fn no_item(ty: &str, name: &Vec<char>) -> (r: CmdErr)
        ensures
            r@ == (CmdErrView::NoItem { ty: ty@, name: name@ }),
    {
        CmdErr::NoItem { ty: String::from_str(ty), name: to_string(name) }
    }

    /// A `NoVoice` error for a voice of the top level.
    pub fn no_voice(name: &Vec<char>) -> (r: CmdErr)
        ensures
            r@ == (CmdErrView::NoVoice { name: name@, group: None }),
    {
        CmdErr::NoVoice { name: to_string(name), group: None }
    }

    /// A `NoVoice` error for a voice of a group.
    pub fn no_member(name: &Vec<char>, group: &Vec<char>) -> (r: CmdErr)
        ensures
            r@ == (CmdErrView::NoVoice { name: name@, group: Some(group@) }),
    {
        CmdErr::NoVoice { name: to_string(name), group: Some(to_string(group)) }
    }
}

/// The queue of commands between the command thread and the audio thread.
pub struct CmdQueue {
    ring: SpscQueue<Command>,
}

impl CmdQueue {
    /// The ring behind the queue is well formed.
    pub closed spec fn wf(&self) -> bool {
        self.ring.wf()
    }

    /// Number of slots; one fewer commands fit.
    pub closed spec fn capacity(&self) -> nat {
        self.ring.capacity()
    }

    /// The commands that wait, oldest first.
    pub closed spec fn view(&self) -> Seq<Command> {
        self.ring@
    }

    pub fn new(cap: usize) -> (r: CmdQueue)
        requires
            cap > 0,
        ensures
            r.wf(),
            r.capacity() == cap,
            r@ == Seq::<Command>::empty(),
    {
        CmdQueue { ring: SpscQueue::new(cap) }
    }

    /// Queues `cmd` behind the commands that wait; `QueueFull`, and the
    /// command is dropped, where `cap - 1` commands wait already.
    pub fn try_push(&mut self, cmd: Command) -> (r: Result<(), CmdErr>)
        requires
            old(self).wf(),
        ensures
            final(self).wf(),
            final(self).capacity() == old(self).capacity(),
            final(self)@ == spec_push(old(self)@, old(self).capacity(), cmd),
            old(self)@.len() + 1 < old(self).capacity() ==> r.is_ok(),
            old(self)@.len() + 1 >= old(self).capacity() ==> r.is_err() && r.unwrap_err()
                is QueueFull,
    {
        match self.ring.try_push(cmd) {
            Ok(()) => Ok(()),
            Err(_) => Err(CmdErr::QueueFull),
        }
    }

    /// Takes the oldest command out, where one waits.
    pub fn try_pop(&mut self) -> (r: Option<Command>)
        requires
            old(self).wf(),
        ensures
            final(self).wf(),
            final(self).capacity() == old(self).capacity(),
            final(self)@ == spec_pop(old(self)@),
            r == (if old(self)@.len() == 0 {
                None::<Command>
            } else {
                Some(old(self)@[0])
            }),
    {
        self.ring.try_pop()
    }
}

} // verus!
