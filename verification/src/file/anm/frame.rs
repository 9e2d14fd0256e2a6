//! Frame descriptors of animation sequences: frames to show and control
//! markers (end, jump, sound, event).

use vstd::prelude::*;
use vstd::string::StringExecFns;

use super::super::error::{DvFileError, FileType};
use super::super::le::{read_u16, u16_at, u16_bytes};
use super::super::show::append_decimal;
use super::super::text::decimal;
use super::constants::{
    END_MARKER, EVENT_MARKER, FRAME_DESCRIPTOR_SIZE, JUMP_MARKER, SOUND_MARKER,
};

verus! {

/// One four-byte descriptor of an animation sequence.
#[derive(Debug, Clone, Copy, PartialEq, Eq, Structural)]
pub enum FrameDescriptor {
    /// Show frame `frame_id` of the sprite for `duration`
    Frame { frame_id: u16, duration: u16 },
    /// End of the sequence (the last frame is held)
    End,
    /// Continue at descriptor `target`
    Jump { target: u16 },
    /// Play sound effect `sound_id`
    Sound { sound_id: u16 },
    /// Signal game event `event_id`
    Event { event_id: u16 },
}

/// The descriptor stored as the two words `id` and `param`.
pub open spec fn descriptor_of(id: u16, param: u16) -> FrameDescriptor {
    if id == END_MARKER {
        FrameDescriptor::End
    } else if id == JUMP_MARKER {
        FrameDescriptor::Jump { target: param }
    } else if id == SOUND_MARKER {
        FrameDescriptor::Sound { sound_id: param }
    } else if id == EVENT_MARKER {
        FrameDescriptor::Event { event_id: param }
    } else {
        FrameDescriptor::Frame { frame_id: id, duration: param }
    }
}

/// The descriptor stored at `off`.
pub open spec fn descriptor_at(data: Seq<u8>, off: int) -> FrameDescriptor {
    descriptor_of(u16_at(data, off), u16_at(data, off + 2))
}

/// The two words that store a descriptor (the end marker's parameter is 0).
pub open spec fn descriptor_words(d: FrameDescriptor) -> (u16, u16) {
    match d {
        FrameDescriptor::Frame { frame_id, duration } => (frame_id, duration),
        FrameDescriptor::End => (END_MARKER, 0),
        FrameDescriptor::Jump { target } => (JUMP_MARKER, target),
        FrameDescriptor::Sound { sound_id } => (SOUND_MARKER, sound_id),
        FrameDescriptor::Event { event_id } => (EVENT_MARKER, event_id),
    }
}

/// The four bytes of a descriptor.
pub open spec fn descriptor_bytes(d: FrameDescriptor) -> Seq<u8> {
    u16_bytes(descriptor_words(d).0) + u16_bytes(descriptor_words(d).1)
}

/// The description of a descriptor, such as `Frame(id=1, dur=5)`.
pub open spec fn descriptor_text(d: FrameDescriptor) -> Seq<char> {
    match d {
        FrameDescriptor::Frame { frame_id, duration } => "Frame(id="@ + decimal(frame_id as nat) + ", dur="@
            + decimal(duration as nat) + ")"@,
        FrameDescriptor::End => "End"@,
        FrameDescriptor::Jump { target } => "Jump(→"@ + decimal(target as nat) + ")"@,
        FrameDescriptor::Sound { sound_id } => "Sound("@ + decimal(sound_id as nat) + ")"@,
        FrameDescriptor::Event { event_id } => "Event("@ + decimal(event_id as nat) + ")"@,
    }
}

impl FrameDescriptor {
    /// A short description, such as `Frame(id=1, dur=5)` or `Jump(→0)`.
    pub fn to_string(&self) -> (r: String)
        ensures
            r@ == descriptor_text(*self),
    {
        match self {
            FrameDescriptor::Frame { frame_id, duration } => {
                let mut s = String::from_str("Frame(id=");
                append_decimal(&mut s, *frame_id as u64);
                s.append(", dur=");
                append_decimal(&mut s, *duration as u64);
                s.append(")");
                s
            },
            FrameDescriptor::End => String::from_str("End"),
            FrameDescriptor::Jump { target } => {
                let mut s = String::from_str("Jump(→");
                append_decimal(&mut s, *target as u64);
                s.append(")");
                s
            },
            FrameDescriptor::Sound { sound_id } => {
                let mut s = String::from_str("Sound(");
                append_decimal(&mut s, *sound_id as u64);
                s.append(")");
                s
            },
            FrameDescriptor::Event { event_id } => {
                let mut s = String::from_str("Event(");
                append_decimal(&mut s, *event_id as u64);
                s.append(")");
                s
            },
        }
    }

    /// A frame to show.
    pub fn frame(frame_id: u16, duration: u16) -> (r: Self)
        ensures
            r == (FrameDescriptor::Frame { frame_id, duration }),
    {
        FrameDescriptor::Frame { frame_id, duration }
    }

    /// A frame whose duration is `ticks` in the low byte and `parameter` in
    /// the high byte.
    pub fn frame_with_duration_components(frame_id: u16, ticks: u8, parameter: u8) -> (r: Self)
        ensures
            r == (FrameDescriptor::Frame { frame_id, duration: (ticks + 256 * parameter) as u16 }),
    {
        FrameDescriptor::Frame { frame_id, duration: ticks as u16 + 256 * parameter as u16 }
    }

    /// The end marker.
    pub fn end() -> (r: Self)
        ensures
            r == FrameDescriptor::End,
    {
        FrameDescriptor::End
    }

    /// A jump to descriptor `target`.
    pub fn jump(target: u16) -> (r: Self)
        ensures
            r == (FrameDescriptor::Jump { target }),
    {
        FrameDescriptor::Jump { target }
    }

    /// A sound effect trigger.
    pub fn sound(sound_id: u16) -> (r: Self)
        ensures
            r == (FrameDescriptor::Sound { sound_id }),
    {
        FrameDescriptor::Sound { sound_id }
    }

    /// A game event trigger.
    pub fn event(event_id: u16) -> (r: Self)
        ensures
            r == (FrameDescriptor::Event { event_id }),
    {
        FrameDescriptor::Event { event_id }
    }

    /// Whether this is the end marker.
    pub fn is_end(&self) -> (r: bool)
        ensures
            r == (*self is End),
    {
        match self {
            FrameDescriptor::End => true,
            _ => false,
        }
    }

    /// Whether this is the end (hold) marker.
    pub fn is_hold(&self) -> (r: bool)
        ensures
            r == (*self is End),
    {
        self.is_end()
    }

    /// Whether this is a jump.
    pub fn is_jump(&self) -> (r: bool)
        ensures
            r == (*self is Jump),
    {
        match self {
            FrameDescriptor::Jump { .. } => true,
            _ => false,
        }
    }

    /// Whether this is a sound trigger.
    pub fn is_sound(&self) -> (r: bool)
        ensures
            r == (*self is Sound),
    {
        match self {
            FrameDescriptor::Sound { .. } => true,
            _ => false,
        }
    }

    /// Whether this is an event trigger.
    pub fn is_event(&self) -> (r: bool)
        ensures
            r == (*self is Event),
    {
        match self {
            FrameDescriptor::Event { .. } => true,
            _ => false,
        }
    }

    /// Whether this is a frame to show.
    pub fn is_frame(&self) -> (r: bool)
        ensures
            r == (*self is Frame),
    {
        match self {
            FrameDescriptor::Frame { .. } => true,
            _ => false,
        }
    }

    /// A frame's duration split into its low byte (ticks) and high byte
    /// (parameter).
    pub fn duration_components(&self) -> (r: Option<(u8, u8)>)
        ensures
            r == match *self {
                FrameDescriptor::Frame { duration, .. } => Some(
                    ((duration % 256) as u8, (duration / 256) as u8),
                ),
                _ => None,
            },
    {
        match self {
            FrameDescriptor::Frame { duration, .. } => Some(
                ((*duration % 256) as u8, (*duration / 256) as u8),
            ),
            _ => None,
        }
    }

    /// A frame's duration ticks (low byte).
    pub fn duration_ticks(&self) -> (r: Option<u8>)
        ensures
            r == match *self {
                FrameDescriptor::Frame { duration, .. } => Some((duration % 256) as u8),
                _ => None,
            },
    {
        match self.duration_components() {
            Some((t, _)) => Some(t),
            None => None,
        }
    }

    /// A frame's duration parameter (high byte).
    pub fn duration_parameter(&self) -> (r: Option<u8>)
        ensures
            r == match *self {
                FrameDescriptor::Frame { duration, .. } => Some((duration / 256) as u8),
                _ => None,
            },
    {
        match self.duration_components() {
            Some((_, p)) => Some(p),
            None => None,
        }
    }

    /// Reads the descriptor in the first four bytes of `data`.
    pub fn from_bytes(data: &[u8]) -> (r: Result<Self, DvFileError>)
        ensures
            data@.len() < FRAME_DESCRIPTOR_SIZE ==> r == Err::<FrameDescriptor, DvFileError>(
                DvFileError::InsufficientData {
                    file_type: FileType::Anm,
                    expected: FRAME_DESCRIPTOR_SIZE,
                    actual: data@.len() as usize,
                },
            ),
            data@.len() >= FRAME_DESCRIPTOR_SIZE ==> r == Ok::<FrameDescriptor, DvFileError>(
                descriptor_at(data@, 0),
            ),
    {
        if data.len() < FRAME_DESCRIPTOR_SIZE {
            return Err(
                DvFileError::insufficient_data(FileType::Anm, FRAME_DESCRIPTOR_SIZE, data.len()),
            );
        }
        Ok(FrameDescriptor::at(data, 0))
    }

    /// The descriptor stored at `off`.
    pub fn at(data: &[u8], off: usize) -> (r: Self)
        requires
            off + FRAME_DESCRIPTOR_SIZE <= data@.len(),
        ensures
            r == descriptor_at(data@, off as int),
    {
        let _len = data.len();
        let id = read_u16(data, off);
        let param = read_u16(data, off + 2);
        if id == END_MARKER {
            FrameDescriptor::End
        } else if id == JUMP_MARKER {
            FrameDescriptor::Jump { target: param }
        } else if id == SOUND_MARKER {
            FrameDescriptor::Sound { sound_id: param }
        } else if id == EVENT_MARKER {
            FrameDescriptor::Event { event_id: param }
        } else {
            FrameDescriptor::Frame { frame_id: id, duration: param }
        }
    }

    /// The four bytes of the descriptor.
    pub fn to_bytes(&self) -> (r: [u8; 4])
        ensures
            r@ == descriptor_bytes(*self),
    {
        let (id, param): (u16, u16) = match self {
            FrameDescriptor::Frame { frame_id, duration } => (*frame_id, *duration),
            FrameDescriptor::End => (END_MARKER, 0),
            FrameDescriptor::Jump { target } => (JUMP_MARKER, *target),
            FrameDescriptor::Sound { sound_id } => (SOUND_MARKER, *sound_id),
            FrameDescriptor::Event { event_id } => (EVENT_MARKER, *event_id),
        };
        let r = [(id % 256) as u8, (id / 256) as u8, (param % 256) as u8, (param / 256) as u8];
        assert(r@ =~= descriptor_bytes(*self));
        r
    }
}

/// Reading back the bytes of a descriptor gives the descriptor, except that
/// a frame whose id is one of the four marker values reads as that marker.
pub proof fn lemma_descriptor_roundtrip(d: FrameDescriptor, data: Seq<u8>, off: int)
    requires
        0 <= off,
        off + FRAME_DESCRIPTOR_SIZE <= data.len(),
        data.subrange(off, off + 4) == descriptor_bytes(d),
        d matches FrameDescriptor::Frame { frame_id, .. } ==> frame_id < EVENT_MARKER,
    ensures
        descriptor_at(data, off) == d,
{
    let (id, param) = descriptor_words(d);
    assert(data.subrange(off, off + 2) =~= u16_bytes(id)) by {
        assert(data.subrange(off, off + 2) =~= descriptor_bytes(d).subrange(0, 2));
    }
    assert(data.subrange(off + 2, off + 4) =~= u16_bytes(param)) by {
        assert(data.subrange(off + 2, off + 4) =~= descriptor_bytes(d).subrange(2, 4));
    }
    super::super::le::lemma_u16_roundtrip(id, data, off);
    super::super::le::lemma_u16_roundtrip(param, data, off + 2);
}

} // verus!
