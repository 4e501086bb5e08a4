//! The practice programs: what each of them decides when a key is pressed.
//!
//! A program reads the store and answers with the actions that its
//! surroundings are to perform: a control message to send, a phrase to say, a
//! note to play, a pause to make.

use crate::key_handler::{ControlMessage, KeyDb};
use crate::log_model::{chronological, newest_matching, of_kind};
use crate::midi::{
    note_name_of, pitch_class, pitch_class_name, pitch_class_of, pitch_class_text, KeyMessage,
    MidiMessageTypes,
};
use crate::music::{
    detect_run, detected_run, is_minor_maj_7_chord, key_downs, minor_maj_7_in_log, CHORD_ROOT,
    CHORD_WINDOW,
};
use crate::speech::{
    get_interval_name, get_pronunciation, interval_name_of, pronunciation_of, same_text,
};
use rand::Rng;
use vstd::prelude::*;
use vstd::slice::slice_subrange;
use vstd::string::*;

verus! {

/// Where a program stands in its life.
#[derive(Debug, Clone, Copy, PartialEq, Eq, Structural)]
pub enum PracticeProgramState {
    INITIALIZING,
    LISTENING,
    PROMPTING,
    FINISHED,
}

/// What a program has to say.
#[derive(Debug, Clone, Copy, PartialEq, Eq, Structural)]
pub enum Phrase {
    /// Asks for the major scale of the key at this place of the circle of
    /// fourths.
    PlayMajor(usize),
    /// The last key of the circle was played.
    ProgramFinished,
    /// A major scale was played, but in another key than asked.
    WrongKey,
    /// Both notes of the interval were played as they sounded.
    PerfectMatch,
    /// The interval of so many semitones was played, from another note.
    CorrectInterval(u8),
    /// The interval is played once more.
    HeresTheChord,
    /// A new interval follows.
    NewChord,
    /// The ear training begins.
    StartingEarTraining,
}

/// One thing that a program asks its surroundings to do.
#[derive(Debug, Clone, Copy, PartialEq, Eq, Structural)]
pub enum ProgramAction {
    /// Send a control message to the dispatcher.
    Send(ControlMessage),
    /// Say a phrase.
    Say(Phrase),
    /// Send a note event to the instrument.
    Play(KeyMessage),
    /// Wait for so many milliseconds.
    Wait(u64),
}

/// The practice programs that there are.
#[derive(Debug, Clone, Copy, PartialEq, Eq, Structural)]
pub enum ProgramKind {
    FreePlay,
    CircleOfFourths,
    EarTraining,
}

/// The program that a name stands for: the circle of fourths and the ear
/// training by their names, the free play by any other.
pub open spec fn program_named(name: Seq<char>) -> ProgramKind {
    if name == "circle-of-fourths"@ {
        ProgramKind::CircleOfFourths
    } else if name == "ear-training"@ {
        ProgramKind::EarTraining
    } else {
        ProgramKind::FreePlay
    }
}

impl ProgramKind {
    /// The program that a name stands for.
    pub fn named(name: &str) -> (kind: ProgramKind)
        ensures
            kind == program_named(name@),
    {
        if same_text(name, "circle-of-fourths") {
            ProgramKind::CircleOfFourths
        } else if same_text(name, "ear-training") {
            ProgramKind::EarTraining
        } else {
            ProgramKind::FreePlay
        }
    }
}

/// A practice program.
pub trait PracticeProgram {
    /// Where the program stands in its life.
    spec fn state_of(&self) -> PracticeProgramState;

    /// Where the program stands in its life.
    fn get_state(&self) -> (state: PracticeProgramState)
        ensures
            state == self.state_of(),
    ;
}

/// The number of keys in the circle of fourths.
pub const CIRCLE_KEYS: usize = 12;

/// The pitch class, counted from A, of the key at place `place` of the
/// circle of fourths, which starts at C and goes on by fourths:
/// C, F, Bb, Eb, Ab, C#, F#, B, E, A, D, G.
pub open spec fn circle_class(place: int) -> int {
    (3 + 5 * place) % 12
}

/// The name of the key at place `place` of the circle of fourths.
pub open spec fn circle_key_name(place: int) -> Seq<char> {
    pitch_class_name(circle_class(place))
}

/// The text of a phrase.
pub open spec fn phrase_text(phrase: Phrase) -> Seq<char> {
    match phrase {
        Phrase::PlayMajor(place) => "play "@ + pronunciation_of(circle_key_name(place as int))
            + " mayjur"@,
        Phrase::ProgramFinished => "you've finished the program. good job!"@,
        Phrase::WrongKey => "You've played a major scale but in the wrong key."@,
        Phrase::PerfectMatch => "perfect match"@,
        Phrase::CorrectInterval(interval) => "correct interval, "@ + interval_name_of(interval),
        Phrase::HeresTheChord => "here's the chord"@,
        Phrase::NewChord => "new chord"@,
        Phrase::StartingEarTraining => "starting ear training"@,
    }
}

/// The steps of a major scale.
pub const MAJOR_SCALE_DELTAS: [i8; 7] = [2, 2, 1, 2, 2, 2, 1];

/// The steps of a harmonic minor scale.
pub const HARMONIC_MINOR_SCALE_DELTAS: [i8; 7] = [2, 1, 2, 2, 1, 3, 1];

/// The steps of a major scale played up and down again.
pub const MAJOR_SCALE_UP_AND_DOWN_DELTAS: [i8; 14] = [
    2, 2, 1, 2, 2, 2, 1, -1, -2, -2, -2, -1, -2, -2,
];

/// The most recent note-offs of a log, newest first, no more than `limit`.
pub open spec fn recent_key_ups(log: Seq<KeyMessage>, limit: nat) -> Seq<KeyMessage> {
    newest_matching(log, of_kind(MidiMessageTypes::NoteOff), limit)
}

/// The most recent note-ons of a log, newest first, no more than `limit`.
pub open spec fn recent_key_downs(log: Seq<KeyMessage>, limit: nat) -> Seq<KeyMessage> {
    newest_matching(log, of_kind(MidiMessageTypes::NoteOn), limit)
}

/// The root of the run that the most recent `increments.len() + 1`
/// note-offs form, if the log has so many and they match the template.
pub open spec fn recent_run(log: Seq<KeyMessage>, increments: Seq<i8>) -> Option<KeyMessage> {
    let ups = recent_key_ups(log, 15);
    if ups.len() > increments.len() {
        detected_run(ups.take(increments.len() + 1 as int), increments)
    } else {
        None
    }
}

impl Phrase {
    /// The text of the phrase.
    pub fn text(&self) -> (text: String)
        ensures
            text@ == phrase_text(*self),
    {
        match self {
            Phrase::PlayMajor(place) => {
                let mut text = String::from_str("play ");
                text.append(get_pronunciation(circle_key(*place)));
                text.append(" mayjur");
                text
            },
            Phrase::ProgramFinished => String::from_str("you've finished the program. good job!"),
            Phrase::WrongKey => String::from_str(
                "You've played a major scale but in the wrong key.",
            ),
            Phrase::PerfectMatch => String::from_str("perfect match"),
            Phrase::CorrectInterval(interval) => {
                let mut text = String::from_str("correct interval, ");
                text.append(get_interval_name(*interval));
                text
            },
            Phrase::HeresTheChord => String::from_str("here's the chord"),
            Phrase::NewChord => String::from_str("new chord"),
            Phrase::StartingEarTraining => String::from_str("starting ear training"),
        }
    }
}

/// The name of the key at place `place` of the circle of fourths.
pub fn circle_key(place: usize) -> (name: &'static str)
    ensures
        name@ == circle_key_name(place as int),
{
    let class = (3 + 5 * (place % 12)) % 12;
    assert(class == circle_class(place as int)) by (nonlinear_arith)
        requires
            class == (3 + 5 * (place % 12)) % 12,
    ;
    pitch_class_text(class as u8)
}

/// What the free play found in the log.
#[derive(Debug, Clone, Copy, PartialEq, Eq, Structural)]
pub struct FreePlayFindings {
    /// The root of the ascending major scale that the last eight note-offs
    /// form.
    pub ascending_major: Option<KeyMessage>,
    /// The root of the harmonic minor scale that the last eight note-offs
    /// form.
    pub harmonic_minor: Option<KeyMessage>,
    /// The root of the major scale, up and down again, that the last
    /// fifteen note-offs form.
    pub major_up_and_down: Option<KeyMessage>,
    /// Whether the log holds the minor chord with a major seventh.
    pub minor_maj_7_chord: bool,
}

/// What the free play finds in a log.
pub open spec fn free_play_findings(log: Seq<KeyMessage>) -> FreePlayFindings {
    FreePlayFindings {
        ascending_major: recent_run(log, MAJOR_SCALE_DELTAS@),
        harmonic_minor: recent_run(log, HARMONIC_MINOR_SCALE_DELTAS@),
        major_up_and_down: recent_run(log, MAJOR_SCALE_UP_AND_DOWN_DELTAS@),
        minor_maj_7_chord: minor_maj_7_in_log(log, CHORD_ROOT, CHORD_WINDOW),
    }
}

/// The actions that follow from what the free play found: a new run for the
/// harmonic minor scale, one for the major scale up and down, one for the
/// chord.
pub open spec fn free_play_actions(findings: FreePlayFindings) -> Seq<ProgramAction> {
    let new_run = seq![ProgramAction::Send(ControlMessage::NewRun)];
    let none = Seq::<ProgramAction>::empty();
    (if findings.harmonic_minor is Some {
        new_run
    } else {
        none
    }) + (if findings.major_up_and_down is Some {
        new_run
    } else {
        none
    }) + (if findings.minor_maj_7_chord {
        new_run
    } else {
        none
    })
}

impl FreePlayFindings {
    /// The actions that follow from the findings.
    pub fn actions(&self) -> (actions: Vec<ProgramAction>)
        ensures
            actions@ == free_play_actions(*self),
    {
        let mut actions: Vec<ProgramAction> = Vec::new();
        if self.harmonic_minor.is_some() {
            actions.push(ProgramAction::Send(ControlMessage::NewRun));
        }
        if self.major_up_and_down.is_some() {
            actions.push(ProgramAction::Send(ControlMessage::NewRun));
        }
        if self.minor_maj_7_chord {
            actions.push(ProgramAction::Send(ControlMessage::NewRun));
        }
        assert(actions@ =~= free_play_actions(*self));
        actions
    }
}

/// The free play: listens for scales and for the chord, and ends the run
/// when one was played.
pub struct FreePlayPracticeProgram {
    state: PracticeProgramState,
}

impl PracticeProgram for FreePlayPracticeProgram {
    closed spec fn state_of(&self) -> PracticeProgramState {
        self.state
    }

    fn get_state(&self) -> (state: PracticeProgramState) {
        self.state
    }
}

impl FreePlayPracticeProgram {
    /// A free play that has not started.
    pub fn new() -> (program: FreePlayPracticeProgram)
        ensures
            program.state_of() == PracticeProgramState::INITIALIZING,
    {
        FreePlayPracticeProgram { state: PracticeProgramState::INITIALIZING }
    }

    /// Starts to listen.
    pub fn start(&mut self)
        ensures
            final(self).state_of() == PracticeProgramState::LISTENING,
    {
        self.state = PracticeProgramState::LISTENING;
    }

    /// Looks through the store after a key was pressed.
    pub fn on_keypress(&self, key_db: &KeyDb, _latest: KeyMessage) -> (findings: FreePlayFindings)
        requires
            chronological(key_downs(key_db@.log)),
        ensures
            findings == free_play_findings(key_db@.log),
    {
        let kmsg_log = key_db.flat_message_log();
        let major_scale_deltas = MAJOR_SCALE_DELTAS;
        let major_scale_up_and_down_deltas = MAJOR_SCALE_UP_AND_DOWN_DELTAS;
        let harmonic_minor_scale_deltas = HARMONIC_MINOR_SCALE_DELTAS;

        let reverse_chron_key_events = key_db.last_n_key_ups_reversed(15);
        let mut ascending_major: Option<KeyMessage> = None;
        let mut harmonic_minor: Option<KeyMessage> = None;
        let mut major_up_and_down: Option<KeyMessage> = None;
        if reverse_chron_key_events.len() > 7 {
            let newest = slice_subrange(reverse_chron_key_events.as_slice(), 0, 8);
            assert(newest@ =~= reverse_chron_key_events@.take(8));
            ascending_major = detect_run(newest, major_scale_deltas.as_slice());
            harmonic_minor = detect_run(newest, harmonic_minor_scale_deltas.as_slice());
        }
        if reverse_chron_key_events.len() > 14 {
            let newest = slice_subrange(reverse_chron_key_events.as_slice(), 0, 15);
            assert(newest@ =~= reverse_chron_key_events@.take(15));
            major_up_and_down = detect_run(newest, major_scale_up_and_down_deltas.as_slice());
        }
        let minor_maj_7_chord = is_minor_maj_7_chord(&kmsg_log);
        FreePlayFindings { ascending_major, harmonic_minor, major_up_and_down, minor_maj_7_chord }
    }
}

/// What the circle of fourths remembers: where it stands in its life, and
/// the place in the circle of the key that it asks for.
pub struct CircleState {
    pub state: PracticeProgramState,
    pub current_key: usize,
}

/// The circle of fourths asks for its current key, unless it has finished.
pub open spec fn circle_prompt(at: CircleState) -> (CircleState, Seq<ProgramAction>) {
    if at.state != PracticeProgramState::FINISHED {
        (
            CircleState { state: PracticeProgramState::LISTENING, current_key: at.current_key },
            seq![ProgramAction::Say(Phrase::PlayMajor(at.current_key))],
        )
    } else {
        (at, Seq::empty())
    }
}

/// The circle of fourths goes on to its next key, or finishes after the
/// last.
pub open spec fn circle_advance(at: CircleState) -> (CircleState, Seq<ProgramAction>) {
    if at.current_key + 1 < CIRCLE_KEYS {
        (
            CircleState { state: at.state, current_key: (at.current_key + 1) as usize },
            Seq::empty(),
        )
    } else {
        (
            CircleState { state: PracticeProgramState::FINISHED, current_key: at.current_key },
            seq![ProgramAction::Say(Phrase::ProgramFinished)],
        )
    }
}

/// What the circle of fourths does when a key was pressed. Once the last
/// fifteen note-offs are a major scale up and down again, it ends the run;
/// if the scale is in the key that it asked for, it goes on to the next key
/// and asks for it, and otherwise it says so and asks again.
pub open spec fn circle_step(at: CircleState, log: Seq<KeyMessage>) -> (
    CircleState,
    Seq<ProgramAction>,
) {
    if at.state == PracticeProgramState::FINISHED {
        (at, Seq::empty())
    } else {
        match recent_run(log, MAJOR_SCALE_UP_AND_DOWN_DELTAS@) {
            Some(root) => {
                let sent = seq![ProgramAction::Send(ControlMessage::NewRun)];
                if note_name_of(root.key) == circle_key_name(at.current_key as int) {
                    let (advanced, said) = circle_advance(at);
                    let (prompted, asked) = circle_prompt(advanced);
                    (prompted, sent + said + asked)
                } else {
                    let (prompted, asked) = circle_prompt(at);
                    (prompted, sent + seq![ProgramAction::Say(Phrase::WrongKey)] + asked)
                }
            },
            None => (at, Seq::empty()),
        }
    }
}

/// Two pitch classes with one name are one pitch class.
pub proof fn lemma_pitch_class_names_differ(a: int, b: int)
    requires
        0 <= a < 12,
        0 <= b < 12,
        pitch_class_name(a) == pitch_class_name(b),
    ensures
        a == b,
{
    let x = pitch_class_name(a);
    let y = pitch_class_name(b);
    assert(x.len() == y.len());
    assert(x[0] == y[0]);
    if x.len() == 2 {
        assert(x[1] == y[1]);
    }
}

/// The circle of fourths: asks for the major scale of each key in turn.
pub struct CircleOfFourthsPracticeProgram {
    state: PracticeProgramState,
    current_key: usize,
}

impl View for CircleOfFourthsPracticeProgram {
    type V = CircleState;

    closed spec fn view(&self) -> CircleState {
        CircleState { state: self.state, current_key: self.current_key }
    }
}

impl PracticeProgram for CircleOfFourthsPracticeProgram {
    open spec fn state_of(&self) -> PracticeProgramState {
        self@.state
    }

    fn get_state(&self) -> (state: PracticeProgramState) {
        self.state
    }
}

impl CircleOfFourthsPracticeProgram {
    /// The key that the program asks for is one of the circle.
    pub open spec fn wf(&self) -> bool {
        self@.current_key < CIRCLE_KEYS
    }

    /// A circle of fourths that has not started, at its first key.
    pub fn new() -> (program: CircleOfFourthsPracticeProgram)
        ensures
            program@ == (CircleState { state: PracticeProgramState::INITIALIZING, current_key: 0 }),
            program.wf(),
    {
        CircleOfFourthsPracticeProgram {
            state: PracticeProgramState::INITIALIZING,
            current_key: 0,
        }
    }

    /// Asks for the first key and starts to listen.
    pub fn start(&mut self) -> (actions: Vec<ProgramAction>)
        requires
            old(self).wf(),
        ensures
            final(self).wf(),
            final(self)@ == (CircleState {
                state: PracticeProgramState::LISTENING,
                current_key: old(self)@.current_key,
            }),
            actions@ == circle_prompt(old(self)@).1,
    {
        let mut actions: Vec<ProgramAction> = Vec::new();
        self.request_current_key(&mut actions);
        self.state = PracticeProgramState::LISTENING;
        assert(actions@ =~= circle_prompt(old(self)@).1);
        actions
    }

    /// Asks for the current key, unless the program has finished.
    fn request_current_key(&mut self, actions: &mut Vec<ProgramAction>)
        ensures
            final(self)@ == circle_prompt(old(self)@).0,
            final(actions)@ == old(actions)@ + circle_prompt(old(self)@).1,
    {
        if self.state != PracticeProgramState::FINISHED {
            self.state = PracticeProgramState::PROMPTING;
            actions.push(ProgramAction::Say(Phrase::PlayMajor(self.current_key)));
            self.state = PracticeProgramState::LISTENING;
        }
        assert(actions@ =~= old(actions)@ + circle_prompt(old(self)@).1);
    }

    /// Goes on to the next key, or finishes after the last.
    fn advance_current_key(&mut self, actions: &mut Vec<ProgramAction>)
        requires
            old(self).wf(),
        ensures
            final(self).wf(),
            final(self)@ == circle_advance(old(self)@).0,
            final(actions)@ == old(actions)@ + circle_advance(old(self)@).1,
    {
        if self.current_key + 1 < CIRCLE_KEYS {
            self.current_key += 1;
        } else {
            actions.push(ProgramAction::Say(Phrase::ProgramFinished));
            self.state = PracticeProgramState::FINISHED;
        }
        assert(actions@ =~= old(actions)@ + circle_advance(old(self)@).1);
    }

    /// Looks through the store after a key was pressed.
    pub fn on_keypress(&mut self, key_db: &KeyDb, _latest: KeyMessage) -> (actions: Vec<
        ProgramAction,
    >)
        requires
            old(self).wf(),
        ensures
            final(self).wf(),
            final(self)@ == circle_step(old(self)@, key_db@.log).0,
            actions@ == circle_step(old(self)@, key_db@.log).1,
    {
        let mut actions: Vec<ProgramAction> = Vec::new();
        if self.state == PracticeProgramState::FINISHED {
            return actions;
        }
        let reverse_chron_key_events = key_db.last_n_key_ups_reversed(15);
        let major_scale_up_and_down_deltas = MAJOR_SCALE_UP_AND_DOWN_DELTAS;
        if reverse_chron_key_events.len() > 14 {
            assert(reverse_chron_key_events@.take(15) =~= reverse_chron_key_events@);
            if let Some(msg) = detect_run(
                reverse_chron_key_events.as_slice(),
                major_scale_up_and_down_deltas.as_slice(),
            ) {
                actions.push(ProgramAction::Send(ControlMessage::NewRun));
                let ghost sent = actions@;
                proof {
                    if note_name_of(msg.key) == circle_key_name(self.current_key as int) {
                        lemma_pitch_class_names_differ(
                            pitch_class_of(msg.key),
                            circle_class(self.current_key as int),
                        );
                    }
                }
                if pitch_class(msg.key) as usize == (3 + 5 * self.current_key) % 12 {
                    self.advance_current_key(&mut actions);
                    self.request_current_key(&mut actions);
                } else {
                    actions.push(ProgramAction::Say(Phrase::WrongKey));
                    self.request_current_key(&mut actions);
                }
                assert(actions@ =~= circle_step(old(self)@, key_db@.log).1);
            }
        }
        actions
    }
}

/// How the two notes of an interval are played.
#[derive(Debug, Clone, Copy, PartialEq, Eq, Structural)]
pub enum IntervalPlaybackMode {
    /// One after the other.
    Open,
    /// Together.
    Closed,
}

/// The key that asks for the interval to be played once more, when pressed
/// twice.
pub const SOS_KEY: u8 = 21;

/// The lowest key from which an interval is played.
pub const LOWEST_BASE_KEY: u8 = 22;

/// The highest key from which an interval is played.
pub const HIGHEST_BASE_KEY: u8 = 78;

/// The widest interval that is played, in semitones.
pub const WIDEST_INTERVAL: u8 = 12;

/// The milliseconds for which a note sounds.
pub const NOTE_MILLIS: u64 = 1000;

/// What the ear training draws by chance for a new test: the key to play
/// from, the interval, and whether the notes sound one after the other.
#[derive(Debug, Clone, Copy, PartialEq, Eq, Structural)]
pub struct TestDraw {
    pub base_key: u8,
    pub interval: u8,
    pub open: bool,
}

/// What the ear training remembers.
pub struct EarState {
    pub state: PracticeProgramState,
    pub randomize_playback_modes: bool,
    pub current_base_key: u8,
    pub current_interval: u8,
    pub current_playback_mode: IntervalPlaybackMode,
}

/// What the ear training makes of the last two keys that were pressed.
pub enum EarVerdict {
    /// Both notes were played as they sounded.
    PerfectMatch,
    /// The interval was played, from another note and downwards.
    CorrectInterval,
    /// The interval is to be played once more.
    Replay,
    /// None of these.
    Nothing,
}

/// Whether a key and an interval can make a test.
pub open spec fn is_test(base_key: u8, interval: u8) -> bool {
    LOWEST_BASE_KEY <= base_key <= HIGHEST_BASE_KEY && interval <= WIDEST_INTERVAL
}

/// The note-on of a key, as a program sends it to the instrument.
pub open spec fn note_on(key: u8) -> KeyMessage {
    KeyMessage { timestamp: 0, message_type: MidiMessageTypes::NoteOn, key }
}

/// The note-off of a key, as a program sends it to the instrument.
pub open spec fn note_off(key: u8) -> KeyMessage {
    KeyMessage { timestamp: 0, message_type: MidiMessageTypes::NoteOff, key }
}

/// The actions that play an interval: one note after the other, or both
/// together.
pub open spec fn pair_actions(mode: IntervalPlaybackMode, base_key: u8, interval: u8) -> Seq<
    ProgramAction,
>
    recommends
        base_key + interval <= u8::MAX,
{
    let second_key = (base_key + interval) as u8;
    match mode {
        IntervalPlaybackMode::Open => seq![
            ProgramAction::Play(note_on(base_key)),
            ProgramAction::Wait(NOTE_MILLIS),
            ProgramAction::Play(note_off(base_key)),
            ProgramAction::Play(note_on(second_key)),
            ProgramAction::Wait(NOTE_MILLIS),
            ProgramAction::Play(note_off(second_key)),
        ],
        IntervalPlaybackMode::Closed => seq![
            ProgramAction::Play(note_on(base_key)),
            ProgramAction::Play(note_on(second_key)),
            ProgramAction::Wait(NOTE_MILLIS),
            ProgramAction::Play(note_off(base_key)),
            ProgramAction::Play(note_off(second_key)),
        ],
    }
}

/// The ear training takes up a new test and plays it. The way of playing is
/// drawn anew only where the program was made to vary it.
pub open spec fn ear_next_test(at: EarState, draw: TestDraw) -> (EarState, Seq<ProgramAction>) {
    let mode = if at.randomize_playback_modes {
        if draw.open {
            IntervalPlaybackMode::Open
        } else {
            IntervalPlaybackMode::Closed
        }
    } else {
        at.current_playback_mode
    };
    (
        EarState {
            state: at.state,
            randomize_playback_modes: at.randomize_playback_modes,
            current_base_key: draw.base_key,
            current_interval: draw.interval,
            current_playback_mode: mode,
        },
        seq![ProgramAction::Say(Phrase::NewChord)] + pair_actions(
            mode,
            draw.base_key,
            draw.interval,
        ),
    )
}

/// What the ear training makes of a log. It looks at the last two note-ons:
/// a perfect match, where the older is the key of the test and the newer
/// lies the interval above it; else the correct interval, where the newer
/// lies the interval below the older; else a request to play the interval
/// again, where both are the key that asks for it.
pub open spec fn ear_verdict(at: EarState, log: Seq<KeyMessage>) -> EarVerdict {
    let last_keys = recent_key_downs(log, 2);
    if at.state == PracticeProgramState::FINISHED || last_keys.len() != 2 {
        EarVerdict::Nothing
    } else if last_keys[1].key == at.current_base_key && last_keys[0].key == at.current_base_key
        + at.current_interval {
        EarVerdict::PerfectMatch
    } else if last_keys[1].key - last_keys[0].key == at.current_interval {
        EarVerdict::CorrectInterval
    } else if last_keys[1].key == SOS_KEY && last_keys[0].key == SOS_KEY {
        EarVerdict::Replay
    } else {
        EarVerdict::Nothing
    }
}

/// What the ear training does when a key was pressed, where `draw` is what
/// chance has for the next test.
pub open spec fn ear_step(at: EarState, log: Seq<KeyMessage>, draw: TestDraw) -> (
    EarState,
    Seq<ProgramAction>,
) {
    let new_run = seq![ProgramAction::Send(ControlMessage::NewRun)];
    match ear_verdict(at, log) {
        EarVerdict::PerfectMatch => {
            let (next, played) = ear_next_test(at, draw);
            (next, new_run + seq![ProgramAction::Say(Phrase::PerfectMatch)] + played)
        },
        EarVerdict::CorrectInterval => {
            let (next, played) = ear_next_test(at, draw);
            (
                next,
                new_run + seq![ProgramAction::Say(Phrase::CorrectInterval(at.current_interval))]
                    + played,
            )
        },
        EarVerdict::Replay => (
            at,
            new_run + seq![ProgramAction::Say(Phrase::HeresTheChord)] + pair_actions(
                at.current_playback_mode,
                at.current_base_key,
                at.current_interval,
            ),
        ),
        EarVerdict::Nothing => (at, Seq::empty()),
    }
}

/// What the ear training does when it starts.
pub open spec fn ear_start(at: EarState, draw: TestDraw) -> (EarState, Seq<ProgramAction>) {
    let listening = EarState {
        state: PracticeProgramState::LISTENING,
        randomize_playback_modes: at.randomize_playback_modes,
        current_base_key: at.current_base_key,
        current_interval: at.current_interval,
        current_playback_mode: at.current_playback_mode,
    };
    let (next, played) = ear_next_test(listening, draw);
    (next, seq![ProgramAction::Say(Phrase::StartingEarTraining)] + played)
}

/// `Rng::gen_range` of the rand crate, on the generator of the thread and
/// with the range from `low` to `high`, both included: some value of that
/// range. It panics on an empty range, which is left out.
#[verifier::external_body]
fn random_in_range(low: u8, high: u8) -> (value: u8)
    requires
        low <= high,
    ensures
        low <= value <= high,
{
    rand::thread_rng().gen_range(low..=high)
}

/// `rand::random` of the rand crate, for a `bool`: one or the other.
#[verifier::external_body]
fn random_flag() -> bool {
    rand::random::<bool>()
}

/// The ear training: plays an interval and listens for it to be played
/// back.
pub struct EarTrainingPracticeProgram {
    state: PracticeProgramState,
    randomize_playback_modes: bool,
    current_base_key: u8,
    current_interval: u8,
    current_playback_mode: IntervalPlaybackMode,
}

impl View for EarTrainingPracticeProgram {
    type V = EarState;

    closed spec fn view(&self) -> EarState {
        EarState {
            state: self.state,
            randomize_playback_modes: self.randomize_playback_modes,
            current_base_key: self.current_base_key,
            current_interval: self.current_interval,
            current_playback_mode: self.current_playback_mode,
        }
    }
}

impl PracticeProgram for EarTrainingPracticeProgram {
    open spec fn state_of(&self) -> PracticeProgramState {
        self@.state
    }

    fn get_state(&self) -> (state: PracticeProgramState) {
        self.state
    }
}

impl EarTrainingPracticeProgram {
    /// The test that the program holds is one that it can play.
    pub open spec fn wf(&self) -> bool {
        is_test(self@.current_base_key, self@.current_interval)
    }

    /// An ear training that has not started, with a first test drawn by
    /// chance, which it plays with both notes together.
    pub fn new(randomize_playback_modes: bool) -> (program: EarTrainingPracticeProgram)
        ensures
            program.wf(),
            program@.state == PracticeProgramState::INITIALIZING,
            program@.randomize_playback_modes == randomize_playback_modes,
            program@.current_playback_mode == IntervalPlaybackMode::Closed,
    {
        let (base_key, interval) = Self::key_and_interval();
        Self::with_test(randomize_playback_modes, base_key, interval)
    }

    /// An ear training that has not started, with the given first test,
    /// which it plays with both notes together.
    pub fn with_test(randomize_playback_modes: bool, base_key: u8, interval: u8) -> (program:
        EarTrainingPracticeProgram)
        requires
            is_test(base_key, interval),
        ensures
            program.wf(),
            program@ == (EarState {
                state: PracticeProgramState::INITIALIZING,
                randomize_playback_modes,
                current_base_key: base_key,
                current_interval: interval,
                current_playback_mode: IntervalPlaybackMode::Closed,
            }),
    {
        EarTrainingPracticeProgram {
            state: PracticeProgramState::INITIALIZING,
            randomize_playback_modes,
            current_base_key: base_key,
            current_interval: interval,
            current_playback_mode: IntervalPlaybackMode::Closed,
        }
    }

    /// A key and an interval for a test, drawn by chance.
    pub fn key_and_interval() -> (test: (u8, u8))
        ensures
            is_test(test.0, test.1),
    {
        let key = random_in_range(LOWEST_BASE_KEY, HIGHEST_BASE_KEY);
        let interval = random_in_range(0, WIDEST_INTERVAL);
        (key, interval)
    }

    /// What chance has for the next test. Whether the notes sound one after
    /// the other is drawn only where the program varies it.
    pub fn draw_test(&self) -> (draw: TestDraw)
        ensures
            is_test(draw.base_key, draw.interval),
    {
        let (base_key, interval) = Self::key_and_interval();
        let open = if self.randomize_playback_modes {
            random_flag()
        } else {
            false
        };
        TestDraw { base_key, interval, open }
    }

    /// The upper note of the interval.
    pub fn second_key(&self) -> (key: u8)
        requires
            self.wf(),
        ensures
            key == self@.current_base_key + self@.current_interval,
    {
        self.current_base_key + self.current_interval
    }

    /// What the program makes of the last two keys that were pressed.
    pub fn verdict(&self, key_db: &KeyDb) -> (verdict: EarVerdict)
        requires
            self.wf(),
        ensures
            verdict == ear_verdict(self@, key_db@.log),
    {
        if self.state == PracticeProgramState::FINISHED {
            return EarVerdict::Nothing;
        }
        let last_keys = key_db.last_n_key_downs_reversed(2);
        if last_keys.len() == 2 {
            if last_keys[1].key == self.current_base_key && last_keys[0].key == self.second_key() {
                EarVerdict::PerfectMatch
            } else if (last_keys[1].key as i16 - last_keys[0].key as i16)
                == self.current_interval as i16 {
                EarVerdict::CorrectInterval
            } else if last_keys[1].key == SOS_KEY && last_keys[0].key == SOS_KEY {
                EarVerdict::Replay
            } else {
                EarVerdict::Nothing
            }
        } else {
            EarVerdict::Nothing
        }
    }

    /// Starts to listen, and plays a first test that is drawn by chance.
    pub fn start(&mut self) -> (actions: Vec<ProgramAction>)
        requires
            old(self).wf(),
        ensures
            final(self).wf(),
            exists|draw: TestDraw|
                is_test(draw.base_key, draw.interval) && final(self)@ == ear_start(
                    old(self)@,
                    draw,
                ).0 && actions@ == #[trigger] ear_start(old(self)@, draw).1,
    {
        let draw = self.draw_test();
        self.start_with(draw)
    }

    /// Starts to listen, and plays the test `draw`.
    pub fn start_with(&mut self, draw: TestDraw) -> (actions: Vec<ProgramAction>)
        requires
            old(self).wf(),
            is_test(draw.base_key, draw.interval),
        ensures
            final(self).wf(),
            final(self)@ == ear_start(old(self)@, draw).0,
            actions@ == ear_start(old(self)@, draw).1,
    {
        self.state = PracticeProgramState::LISTENING;
        let mut actions: Vec<ProgramAction> = Vec::new();
        actions.push(ProgramAction::Say(Phrase::StartingEarTraining));
        self.next_test(draw, &mut actions);
        assert(actions@ =~= ear_start(old(self)@, draw).1);
        actions
    }

    /// Looks through the store after a key was pressed. Where a new test is
    /// due, it is drawn by chance.
    pub fn on_keypress(&mut self, key_db: &KeyDb, latest: KeyMessage) -> (actions: Vec<
        ProgramAction,
    >)
        requires
            old(self).wf(),
        ensures
            final(self).wf(),
            exists|draw: TestDraw|
                is_test(draw.base_key, draw.interval) && final(self)@ == ear_step(
                    old(self)@,
                    key_db@.log,
                    draw,
                ).0 && actions@ == #[trigger] ear_step(old(self)@, key_db@.log, draw).1,
    {
        let draw = match self.verdict(key_db) {
            EarVerdict::PerfectMatch => self.draw_test(),
            EarVerdict::CorrectInterval => self.draw_test(),
            _ => TestDraw {
                base_key: self.current_base_key,
                interval: self.current_interval,
                open: false,
            },
        };
        self.on_keypress_with(key_db, latest, draw)
    }

    /// Looks through the store after a key was pressed. Where a new test is
    /// due, it is `draw`.
    pub fn on_keypress_with(
        &mut self,
        key_db: &KeyDb,
        _latest: KeyMessage,
        draw: TestDraw,
    ) -> (actions: Vec<ProgramAction>)
        requires
            old(self).wf(),
            is_test(draw.base_key, draw.interval),
        ensures
            final(self).wf(),
            final(self)@ == ear_step(old(self)@, key_db@.log, draw).0,
            actions@ == ear_step(old(self)@, key_db@.log, draw).1,
    {
        let mut actions: Vec<ProgramAction> = Vec::new();
        match self.verdict(key_db) {
            EarVerdict::PerfectMatch => {
                actions.push(ProgramAction::Send(ControlMessage::NewRun));
                actions.push(ProgramAction::Say(Phrase::PerfectMatch));
                self.next_test(draw, &mut actions);
            },
            EarVerdict::CorrectInterval => {
                actions.push(ProgramAction::Send(ControlMessage::NewRun));
                actions.push(ProgramAction::Say(Phrase::CorrectInterval(self.current_interval)));
                self.next_test(draw, &mut actions);
            },
            EarVerdict::Replay => {
                actions.push(ProgramAction::Send(ControlMessage::NewRun));
                actions.push(ProgramAction::Say(Phrase::HeresTheChord));
                self.play_pair(&mut actions);
            },
            EarVerdict::Nothing => {},
        }
        assert(actions@ =~= ear_step(old(self)@, key_db@.log, draw).1);
        actions
    }

    /// Takes up the test `draw` and plays it.
    fn next_test(&mut self, draw: TestDraw, actions: &mut Vec<ProgramAction>)
        requires
            is_test(draw.base_key, draw.interval),
        ensures
            final(self).wf(),
            final(self)@ == ear_next_test(old(self)@, draw).0,
            final(actions)@ == old(actions)@ + ear_next_test(old(self)@, draw).1,
    {
        self.current_base_key = draw.base_key;
        self.current_interval = draw.interval;
        if self.randomize_playback_modes {
            self.current_playback_mode = if draw.open {
                IntervalPlaybackMode::Open
            } else {
                IntervalPlaybackMode::Closed
            };
        }
        actions.push(ProgramAction::Say(Phrase::NewChord));
        self.play_pair(actions);
        assert(actions@ =~= old(actions)@ + ear_next_test(old(self)@, draw).1);
    }

    /// Plays a note for so many milliseconds.
    fn play_note(&self, key: u8, duration_millis: u64, actions: &mut Vec<ProgramAction>)
        ensures
            final(actions)@ == old(actions)@ + seq![
                ProgramAction::Play(note_on(key)),
                ProgramAction::Wait(duration_millis),
                ProgramAction::Play(note_off(key)),
            ],
    {
        self.send_note_on(key, actions);
        actions.push(ProgramAction::Wait(duration_millis));
        self.send_note_off(key, actions);
        assert(actions@ =~= old(actions)@ + seq![
            ProgramAction::Play(note_on(key)),
            ProgramAction::Wait(duration_millis),
            ProgramAction::Play(note_off(key)),
        ]);
    }

    /// Has the note-off of a key sent to the instrument.
    fn send_note_off(&self, key: u8, actions: &mut Vec<ProgramAction>)
        ensures
            final(actions)@ == old(actions)@.push(ProgramAction::Play(note_off(key))),
    {
        let up = KeyMessage { timestamp: 0, message_type: MidiMessageTypes::NoteOff, key };
        actions.push(ProgramAction::Play(up));
    }

    /// Has the note-on of a key sent to the instrument.
    fn send_note_on(&self, key: u8, actions: &mut Vec<ProgramAction>)
        ensures
            final(actions)@ == old(actions)@.push(ProgramAction::Play(note_on(key))),
    {
        let down = KeyMessage { timestamp: 0, message_type: MidiMessageTypes::NoteOn, key };
        actions.push(ProgramAction::Play(down));
    }

    /// Plays the interval of the current test.
    fn play_pair(&self, actions: &mut Vec<ProgramAction>)
        requires
            self.wf(),
        ensures
            final(actions)@ == old(actions)@ + pair_actions(
                self@.current_playback_mode,
                self@.current_base_key,
                self@.current_interval,
            ),
    {
        match self.current_playback_mode {
            IntervalPlaybackMode::Open => {
                self.play_note(self.current_base_key, NOTE_MILLIS, actions);
                self.play_note(self.second_key(), NOTE_MILLIS, actions);
            },
            IntervalPlaybackMode::Closed => {
                self.send_note_on(self.current_base_key, actions);
                self.send_note_on(self.second_key(), actions);
                actions.push(ProgramAction::Wait(NOTE_MILLIS));
                self.send_note_off(self.current_base_key, actions);
                self.send_note_off(self.second_key(), actions);
            },
        }
        assert(final(actions)@ =~= old(actions)@ + pair_actions(
            self@.current_playback_mode,
            self@.current_base_key,
            self@.current_interval,
        ));
    }
}

} // verus!
