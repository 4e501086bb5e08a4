//! The event model: one note event, its wire encoding and its readable name.

use vstd::prelude::*;
use vstd::string::*;

verus! {

/// Status byte of a note-on message.
pub const KEY_DOWN: u8 = 144;

/// Status byte of a note-off message.
pub const KEY_UP: u8 = 128;

/// Status byte of the keep-alive message that controllers send while idle.
pub const KEEP_ALIVE: u8 = 254;

/// Status byte of the time-keeping message.
pub const TIME_KEEPING: u8 = 208;

/// Velocity written into every encoded message.
pub const VELOCITY: u8 = 100;

/// Pianos start with a low A, the wire numbering starts at C.
pub const NOTE_SEQ_OFFSET: usize = 3;

/// The two kinds of note event.
#[derive(Debug, Clone, Copy, PartialEq, Eq, Structural)]
pub enum MidiMessageTypes {
    NoteOn,
    NoteOff,
}

/// One note event: the time that it is stamped with, its kind and the key
/// number.
#[derive(Debug, Clone, Copy, PartialEq, Eq, Structural)]
pub struct KeyMessage {
    pub timestamp: u64,
    pub message_type: MidiMessageTypes,
    pub key: u8,
}

/// The status byte that stands for a kind of note event on the wire.
pub open spec fn status_byte_of(message_type: MidiMessageTypes) -> u8 {
    match message_type {
        MidiMessageTypes::NoteOn => KEY_DOWN,
        MidiMessageTypes::NoteOff => KEY_UP,
    }
}

/// Position of a key within the octave, counted from A.
pub open spec fn pitch_class_of(key: u8) -> int {
    (key as int + NOTE_SEQ_OFFSET as int) % 12
}

/// The name of the pitch class at `class` semitones above A.
pub open spec fn pitch_class_name(class: int) -> Seq<char> {
    if class == 0 {
        seq!['A']
    } else if class == 1 {
        seq!['B', 'b']
    } else if class == 2 {
        seq!['B']
    } else if class == 3 {
        seq!['C']
    } else if class == 4 {
        seq!['C', '#']
    } else if class == 5 {
        seq!['D']
    } else if class == 6 {
        seq!['E', 'b']
    } else if class == 7 {
        seq!['E']
    } else if class == 8 {
        seq!['F']
    } else if class == 9 {
        seq!['F', '#']
    } else if class == 10 {
        seq!['G']
    } else {
        seq!['A', 'b']
    }
}

/// The name of a key, without its octave.
pub open spec fn note_name_of(key: u8) -> Seq<char> {
    pitch_class_name(pitch_class_of(key))
}

/// The character of one decimal digit.
pub open spec fn digit_char(d: nat) -> char {
    if d == 0 {
        '0'
    } else if d == 1 {
        '1'
    } else if d == 2 {
        '2'
    } else if d == 3 {
        '3'
    } else if d == 4 {
        '4'
    } else if d == 5 {
        '5'
    } else if d == 6 {
        '6'
    } else if d == 7 {
        '7'
    } else if d == 8 {
        '8'
    } else {
        '9'
    }
}

/// A number written in decimal, most significant digit first, without
/// leading zeros.
pub open spec fn decimal_digits(n: nat) -> Seq<char>
    decreases n,
{
    if n < 10 {
        seq![digit_char(n)]
    } else {
        decimal_digits(n / 10).push(digit_char(n % 10))
    }
}

/// The name of a key followed by the number of its octave.
pub open spec fn readable_note_of(key: u8) -> Seq<char> {
    note_name_of(key) + decimal_digits((key / 12) as nat)
}

/// The name of a kind of note event.
pub open spec fn message_type_name(message_type: MidiMessageTypes) -> Seq<char> {
    match message_type {
        MidiMessageTypes::NoteOn => seq!['N', 'o', 't', 'e', 'O', 'n'],
        MidiMessageTypes::NoteOff => seq!['N', 'o', 't', 'e', 'O', 'f', 'f'],
    }
}

/// The text of an event: its kind, its readable note, and a blank.
pub open spec fn message_text_of(message: KeyMessage) -> Seq<char> {
    message_type_name(message.message_type) + readable_note_of(message.key) + seq![' ']
}

/// Whether a status byte is one that a controller is known to send.
pub open spec fn is_known_status(status: u8) -> bool {
    status == KEY_DOWN || status == KEY_UP || status == KEEP_ALIVE || status == TIME_KEEPING
}

/// Whether raw bytes are a note event: three bytes, the first of them the
/// status byte of a note-on or a note-off.
pub open spec fn is_note_message(bytes: Seq<u8>) -> bool {
    bytes.len() == 3 && (bytes[0] == KEY_DOWN || bytes[0] == KEY_UP)
}

/// The event that the first two bytes of a raw message describe.
pub open spec fn decoded(timestamp: u64, bytes: Seq<u8>) -> KeyMessage {
    KeyMessage {
        timestamp,
        message_type: if bytes[0] == KEY_DOWN {
            MidiMessageTypes::NoteOn
        } else {
            MidiMessageTypes::NoteOff
        },
        key: bytes[1],
    }
}

/// The text of one decimal digit.
fn digit_text(d: u64) -> (text: &'static str)
    requires
        d < 10,
    ensures
        text@ == seq![digit_char(d as nat)],
{
    proof {
        reveal_strlit("0");
        reveal_strlit("1");
        reveal_strlit("2");
        reveal_strlit("3");
        reveal_strlit("4");
        reveal_strlit("5");
        reveal_strlit("6");
        reveal_strlit("7");
        reveal_strlit("8");
        reveal_strlit("9");
    }
    let text = if d == 0 {
        "0"
    } else if d == 1 {
        "1"
    } else if d == 2 {
        "2"
    } else if d == 3 {
        "3"
    } else if d == 4 {
        "4"
    } else if d == 5 {
        "5"
    } else if d == 6 {
        "6"
    } else if d == 7 {
        "7"
    } else if d == 8 {
        "8"
    } else {
        "9"
    };
    assert(text@ =~= seq![digit_char(d as nat)]);
    text
}

/// Writes a number in decimal.
pub fn decimal_text(n: u64) -> (text: String)
    ensures
        text@ == decimal_digits(n as nat),
    decreases n,
{
    if n < 10 {
        String::from_str(digit_text(n))
    } else {
        let mut text = decimal_text(n / 10);
        text.append(digit_text(n % 10));
        assert(text@ =~= decimal_digits(n as nat));
        text
    }
}

/// Position of a key within the octave, counted from A.
pub fn pitch_class(key: u8) -> (class: u8)
    ensures
        class == pitch_class_of(key),
{
    ((key as usize + NOTE_SEQ_OFFSET) % 12) as u8
}

/// The name of the pitch class at `class` semitones above A.
pub fn pitch_class_text(class: u8) -> (name: &'static str)
    requires
        class < 12,
    ensures
        name@ == pitch_class_name(class as int),
{
    proof {
        reveal_strlit("A");
        reveal_strlit("Bb");
        reveal_strlit("B");
        reveal_strlit("C");
        reveal_strlit("C#");
        reveal_strlit("D");
        reveal_strlit("Eb");
        reveal_strlit("E");
        reveal_strlit("F");
        reveal_strlit("F#");
        reveal_strlit("G");
        reveal_strlit("Ab");
    }
    let name = if class == 0 {
        "A"
    } else if class == 1 {
        "Bb"
    } else if class == 2 {
        "B"
    } else if class == 3 {
        "C"
    } else if class == 4 {
        "C#"
    } else if class == 5 {
        "D"
    } else if class == 6 {
        "Eb"
    } else if class == 7 {
        "E"
    } else if class == 8 {
        "F"
    } else if class == 9 {
        "F#"
    } else if class == 10 {
        "G"
    } else {
        "Ab"
    };
    assert(name@ =~= pitch_class_name(class as int));
    name
}

/// Whether a status byte is one that a controller is known to send.
pub fn is_known_message_type(status: u8) -> (known: bool)
    ensures
        known == is_known_status(status),
{
    status == KEY_DOWN || status == KEY_UP || status == KEEP_ALIVE || status == TIME_KEEPING
}

impl MidiMessageTypes {
    /// The status byte of this kind of event.
    pub fn status_byte(self) -> (status: u8)
        ensures
            status == status_byte_of(self),
    {
        match self {
            MidiMessageTypes::NoteOn => KEY_DOWN,
            MidiMessageTypes::NoteOff => KEY_UP,
        }
    }

    /// The name of this kind of event.
    pub fn name(self) -> (text: &'static str)
        ensures
            text@ == message_type_name(self),
    {
        proof {
            reveal_strlit("NoteOn");
            reveal_strlit("NoteOff");
        }
        let text = match self {
            MidiMessageTypes::NoteOn => "NoteOn",
            MidiMessageTypes::NoteOff => "NoteOff",
        };
        assert(text@ =~= message_type_name(self));
        text
    }
}

impl KeyMessage {
    /// The name of the key with the number of its octave, such as `C5`.
    pub fn readable_note(&self) -> (text: String)
        ensures
            text@ == readable_note_of(self.key),
    {
        let mut text = String::from_str(self.note_name());
        let octave = decimal_text((self.key / 12) as u64);
        text.append(octave.as_str());
        text
    }

    /// The name of the key without its octave.
    pub fn note_name(&self) -> (name: &'static str)
        ensures
            name@ == note_name_of(self.key),
    {
        pitch_class_text(pitch_class(self.key))
    }

    /// The text of the event: its kind, its readable note, and a blank.
    pub fn to_string(&self) -> (text: String)
        ensures
            text@ == message_text_of(*self),
    {
        let mut text = String::from_str(self.message_type.name());
        let note = self.readable_note();
        text.append(note.as_str());
        proof {
            reveal_strlit(" ");
        }
        text.append(" ");
        assert(text@ =~= message_text_of(*self));
        text
    }

    /// The three bytes that carry this event on the wire.
    pub fn encode(&self) -> (bytes: [u8; 3])
        ensures
            bytes@ == seq![status_byte_of(self.message_type), self.key, VELOCITY],
    {
        let bytes = [self.message_type.status_byte(), self.key, VELOCITY];
        assert(bytes@ =~= seq![status_byte_of(self.message_type), self.key, VELOCITY]);
        bytes
    }

    /// Reads an event from the raw bytes of a note-on or note-off message.
    pub fn from_midi(timestamp: u64, unstructured_message: &[u8]) -> (message: KeyMessage)
        requires
            unstructured_message@.len() >= 2,
            unstructured_message@[0] == KEY_DOWN || unstructured_message@[0] == KEY_UP,
        ensures
            message == decoded(timestamp, unstructured_message@),
    {
        let m_type = if unstructured_message[0] == KEY_DOWN {
            MidiMessageTypes::NoteOn
        } else {
            MidiMessageTypes::NoteOff
        };
        KeyMessage { timestamp, message_type: m_type, key: unstructured_message[1] }
    }

    /// Reads an event from raw bytes if they are a note event, and gives
    /// `None` for every other message.
    pub fn parse(timestamp: u64, unstructured_message: &[u8]) -> (message: Option<KeyMessage>)
        ensures
            message == if is_note_message(unstructured_message@) {
                Some(decoded(timestamp, unstructured_message@))
            } else {
                None
            },
    {
        if unstructured_message.len() == 3 && (unstructured_message[0] == KEY_UP
            || unstructured_message[0] == KEY_DOWN) {
            Some(KeyMessage::from_midi(timestamp, unstructured_message))
        } else {
            None
        }
    }
}

/// Reads an event from the raw bytes of a note-on or note-off message.
pub fn build_key_message(timestamp: u64, unstructured_message: &[u8]) -> (message: KeyMessage)
    requires
        unstructured_message@.len() >= 2,
        unstructured_message@[0] == KEY_DOWN || unstructured_message@[0] == KEY_UP,
    ensures
        message == decoded(timestamp, unstructured_message@),
{
    KeyMessage::from_midi(timestamp, unstructured_message)
}

} // verus!
