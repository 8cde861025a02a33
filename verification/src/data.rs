//! The values that flow through a node graph, their types, and the ports that
//! carry them.
//!
//! A float is held as its IEEE-754 bit pattern, a path as its text, and a
//! video frame as its size and raw bytes.
use crate::text::str_eq;
use vstd::prelude::*;

verus! {

/// A decoded video frame: size in pixels and packed pixel bytes.
#[derive(Debug, Clone, PartialEq, Eq)]
pub struct Frame {
    pub width: u32,
    pub height: u32,
    pub data: Vec<u8>,
}

impl Frame {
    pub fn data(&self) -> (r: &[u8])
        ensures
            r@ == self.data@,
    {
        self.data.as_slice()
    }

    pub fn width(&self) -> (r: u32)
        ensures
            r == self.width,
    {
        self.width
    }

    pub fn height(&self) -> (r: u32)
        ensures
            r == self.height,
    {
        self.height
    }
}

impl Frame {
    /// This frame with `f` applied to every byte.
    pub fn map<F: Fn(u8) -> u8>(self, f: F) -> (r: Frame)
        requires
            forall|b: u8| f.requires((b,)),
        ensures
            r.width == self.width,
            r.height == self.height,
            r.data@.len() == self.data@.len(),
            forall|i: int| 0 <= i < self.data@.len() ==> f.ensures((self.data@[i],), #[trigger] r.data@[i]),
    {
        let mut frame = self;
        let ghost initial = frame.data@;
        let mut i: usize = 0;
        while i < frame.data.len()
            invariant
                forall|b: u8| f.requires((b,)),
                frame.width == self.width,
                frame.height == self.height,
                frame.data@.len() == initial.len(),
                i <= initial.len(),
                forall|j: int| i <= j < initial.len() ==> frame.data@[j] == initial[j],
                forall|j: int| 0 <= j < i ==> f.ensures((initial[j],), #[trigger] frame.data@[j]),
            decreases initial.len() - i,
        {
            let v = f(frame.data[i]);
            frame.data.set(i, v);
            i = i + 1;
        }
        frame
    }

    /// Whether two frames have the same size and bytes.
    pub fn same_as(&self, other: &Frame) -> (r: bool)
        ensures
            r == (self.width == other.width && self.height == other.height && self.data@ == other.data@),
    {
        if self.width != other.width || self.height != other.height || self.data.len() != other.data.len() {
            return false;
        }
        let mut i: usize = 0;
        while i < self.data.len()
            invariant
                i <= self.data@.len(),
                self.data@.len() == other.data@.len(),
                forall|j: int| 0 <= j < i ==> self.data@[j] == other.data@[j],
            decreases self.data@.len() - i,
        {
            if self.data[i] != other.data[i] {
                proof {
                    assert(self.data@[i as int] != other.data@[i as int]);
                }
                return false;
            }
            i = i + 1;
        }
        proof {
            assert(self.data@ =~= other.data@);
        }
        true
    }

    /// A copy of this frame.
    pub fn duplicate(&self) -> (r: Frame)
        ensures
            r.width == self.width,
            r.height == self.height,
            r.data@ == self.data@,
    {
        let data = self.data.clone();
        proof {
            assert(data@ =~= self.data@);
        }
        Frame { width: self.width, height: self.height, data }
    }
}

/// The type of a single value.
#[derive(Debug, Clone, Copy, PartialEq, Eq)]
pub enum SimpleDataType {
    Int,
    Float,
    VideoFrame,
    String,
    Path,
}

/// A single value.
#[derive(Debug, Clone, PartialEq)]
pub enum SimpleDataValue {
    Int(i64),
    /// The bit pattern of an `f64`.
    Float(u64),
    VideoFrame(Frame),
    String(String),
    Path(String),
}

impl SimpleDataType {
    pub fn integer() -> (r: Self)
        ensures
            r == SimpleDataType::Int,
    {
        SimpleDataType::Int
    }

    pub fn float() -> (r: Self)
        ensures
            r == SimpleDataType::Float,
    {
        SimpleDataType::Float
    }

    pub fn vframe() -> (r: Self)
        ensures
            r == SimpleDataType::VideoFrame,
    {
        SimpleDataType::VideoFrame
    }

    pub fn string() -> (r: Self)
        ensures
            r == SimpleDataType::String,
    {
        SimpleDataType::String
    }

    pub fn path() -> (r: Self)
        ensures
            r == SimpleDataType::Path,
    {
        SimpleDataType::Path
    }
}

/// The type of a value: a single one, or a track of them (one per frame).
#[derive(Debug, Clone, Copy, PartialEq, Eq)]
pub enum DataType {
    Simple(SimpleDataType),
    Track(SimpleDataType),
}

impl SimpleDataValue {
    pub open spec fn spec_typ(self) -> SimpleDataType {
        match self {
            SimpleDataValue::Int(_) => SimpleDataType::Int,
            SimpleDataValue::Float(_) => SimpleDataType::Float,
            SimpleDataValue::VideoFrame(_) => SimpleDataType::VideoFrame,
            SimpleDataValue::String(_) => SimpleDataType::String,
            SimpleDataValue::Path(_) => SimpleDataType::Path,
        }
    }

    pub fn integer(value: i64) -> (r: Self)
        ensures
            r == SimpleDataValue::Int(value),
    {
        SimpleDataValue::Int(value)
    }

    /// The float with IEEE-754 bit pattern `bits`.
    pub fn float(bits: u64) -> (r: Self)
        ensures
            r == SimpleDataValue::Float(bits),
    {
        SimpleDataValue::Float(bits)
    }

    pub fn vframe(value: Frame) -> (r: Self)
        ensures
            r == SimpleDataValue::VideoFrame(value),
    {
        SimpleDataValue::VideoFrame(value)
    }

    pub fn string(value: String) -> (r: Self)
        ensures
            r == SimpleDataValue::String(value),
    {
        SimpleDataValue::String(value)
    }

    pub fn path(value: String) -> (r: Self)
        ensures
            r == SimpleDataValue::Path(value),
    {
        SimpleDataValue::Path(value)
    }

    /// Equal contents (frames compared by size and bytes).
    pub open spec fn same(self, other: SimpleDataValue) -> bool {
        match (self, other) {
            (SimpleDataValue::Int(a), SimpleDataValue::Int(b)) => a == b,
            (SimpleDataValue::Float(a), SimpleDataValue::Float(b)) => a == b,
            (SimpleDataValue::VideoFrame(a), SimpleDataValue::VideoFrame(b)) => a.width == b.width
                && a.height == b.height && a.data@ == b.data@,
            (SimpleDataValue::String(a), SimpleDataValue::String(b)) => a@ == b@,
            (SimpleDataValue::Path(a), SimpleDataValue::Path(b)) => a@ == b@,
            _ => false,
        }
    }

    /// Whether two values have equal contents.
    pub fn equals(&self, other: &SimpleDataValue) -> (r: bool)
        ensures
            r == self.same(*other),
    {
        match (self, other) {
            (SimpleDataValue::Int(a), SimpleDataValue::Int(b)) => *a == *b,
            (SimpleDataValue::Float(a), SimpleDataValue::Float(b)) => *a == *b,
            (SimpleDataValue::VideoFrame(a), SimpleDataValue::VideoFrame(b)) => a.same_as(b),
            (SimpleDataValue::String(a), SimpleDataValue::String(b)) => str_eq(a.as_str(), b.as_str()),
            (SimpleDataValue::Path(a), SimpleDataValue::Path(b)) => str_eq(a.as_str(), b.as_str()),
            _ => false,
        }
    }

    /// A copy of this value.
    pub fn duplicate(&self) -> (r: SimpleDataValue)
        ensures
            r.same(*self),
    {
        match self {
            SimpleDataValue::Int(x) => SimpleDataValue::Int(*x),
            SimpleDataValue::Float(x) => SimpleDataValue::Float(*x),
            SimpleDataValue::VideoFrame(f) => SimpleDataValue::VideoFrame(f.duplicate()),
            SimpleDataValue::String(x) => SimpleDataValue::String(x.clone()),
            SimpleDataValue::Path(x) => SimpleDataValue::Path(x.clone()),
        }
    }

    /// The type of this value.
    pub fn typ(&self) -> (r: SimpleDataType)
        ensures
            r == self.spec_typ(),
    {
        match self {
            SimpleDataValue::Int(_) => SimpleDataType::Int,
            SimpleDataValue::Float(_) => SimpleDataType::Float,
            SimpleDataValue::VideoFrame(_) => SimpleDataType::VideoFrame,
            SimpleDataValue::String(_) => SimpleDataType::String,
            SimpleDataValue::Path(_) => SimpleDataType::Path,
        }
    }
}

/// A named, typed input or output of a node.
#[derive(Debug, Clone, Copy)]
pub struct Port {
    pub name: &'static str,
    pub typ: DataType,
}

impl DataType {
    pub fn integer() -> (r: Self)
        ensures
            r == DataType::Simple(SimpleDataType::Int),
    {
        DataType::Simple(SimpleDataType::Int)
    }

    pub fn float() -> (r: Self)
        ensures
            r == DataType::Simple(SimpleDataType::Float),
    {
        DataType::Simple(SimpleDataType::Float)
    }

    pub fn vframe() -> (r: Self)
        ensures
            r == DataType::Simple(SimpleDataType::VideoFrame),
    {
        DataType::Simple(SimpleDataType::VideoFrame)
    }

    pub fn string() -> (r: Self)
        ensures
            r == DataType::Simple(SimpleDataType::String),
    {
        DataType::Simple(SimpleDataType::String)
    }

    pub fn path() -> (r: Self)
        ensures
            r == DataType::Simple(SimpleDataType::Path),
    {
        DataType::Simple(SimpleDataType::Path)
    }

    /// A port of this type called `name`.
    pub fn named(self, name: &'static str) -> (r: Port)
        ensures
            r.name == name,
            r.typ == self,
    {
        Port { name, typ: self }
    }

    /// A track of video frames.
    pub fn video_track() -> (r: Self)
        ensures
            r == DataType::Track(SimpleDataType::VideoFrame),
    {
        DataType::Track(SimpleDataType::VideoFrame)
    }
}

impl Port {
    pub fn name(&self) -> (r: &'static str)
        ensures
            r == self.name,
    {
        self.name
    }

    pub fn typ(&self) -> (r: DataType)
        ensures
            r == self.typ,
    {
        self.typ
    }

    /// Whether this port is called `name`.
    pub fn is_named(&self, name: &str) -> (r: bool)
        ensures
            r == (self.name@ == name@),
    {
        str_eq(self.name, name)
    }
}

/// A value flowing through a graph: a single value, or a track of `length`
/// values of one type (rendered frame by frame where it is consumed).
#[derive(Debug, Clone, PartialEq)]
pub enum DataValue {
    Simple(SimpleDataValue),
    Track { length: u64, typ: SimpleDataType },
}

/// A value of one type was needed, one of another was found.
#[derive(Debug, Clone, Copy, PartialEq, Eq)]
pub struct DataValueConversionError {
    pub needed: SimpleDataType,
    pub got: DataType,
}

impl DataValue {
    pub open spec fn spec_typ(self) -> DataType {
        match self {
            DataValue::Simple(x) => DataType::Simple(x.spec_typ()),
            DataValue::Track { typ, .. } => DataType::Track(typ),
        }
    }

    pub fn integer(value: i64) -> (r: Self)
        ensures
            r == DataValue::Simple(SimpleDataValue::Int(value)),
    {
        DataValue::Simple(SimpleDataValue::Int(value))
    }

    /// The float with IEEE-754 bit pattern `bits`.
    pub fn float(bits: u64) -> (r: Self)
        ensures
            r == DataValue::Simple(SimpleDataValue::Float(bits)),
    {
        DataValue::Simple(SimpleDataValue::Float(bits))
    }

    pub fn vframe(value: Frame) -> (r: Self)
        ensures
            r == DataValue::Simple(SimpleDataValue::VideoFrame(value)),
    {
        DataValue::Simple(SimpleDataValue::VideoFrame(value))
    }

    pub fn string(value: String) -> (r: Self)
        ensures
            r == DataValue::Simple(SimpleDataValue::String(value)),
    {
        DataValue::Simple(SimpleDataValue::String(value))
    }

    pub fn path(value: String) -> (r: Self)
        ensures
            r == DataValue::Simple(SimpleDataValue::Path(value)),
    {
        DataValue::Simple(SimpleDataValue::Path(value))
    }

    /// The type of this value.
    pub fn typ(&self) -> (r: DataType)
        ensures
            r == self.spec_typ(),
    {
        match self {
            DataValue::Simple(x) => DataType::Simple(x.typ()),
            DataValue::Track { typ, .. } => DataType::Track(*typ),
        }
    }

    /// The integer this value holds.
    pub fn into_int(self) -> (r: Result<i64, DataValueConversionError>)
        ensures
            match self {
                DataValue::Simple(SimpleDataValue::Int(x)) => r == Ok::<i64, DataValueConversionError>(x),
                _ => r == Err::<i64, DataValueConversionError>(
                    DataValueConversionError { needed: SimpleDataType::Int, got: self.spec_typ() },
                ),
            },
    {
        let got = self.typ();
        match self {
            DataValue::Simple(SimpleDataValue::Int(x)) => Ok(x),
            _ => Err(DataValueConversionError { needed: SimpleDataType::Int, got }),
        }
    }

    /// The bit pattern of the float this value holds.
    pub fn into_float(self) -> (r: Result<u64, DataValueConversionError>)
        ensures
            match self {
                DataValue::Simple(SimpleDataValue::Float(x)) => r == Ok::<u64, DataValueConversionError>(x),
                _ => r == Err::<u64, DataValueConversionError>(
                    DataValueConversionError { needed: SimpleDataType::Float, got: self.spec_typ() },
                ),
            },
    {
        let got = self.typ();
        match self {
            DataValue::Simple(SimpleDataValue::Float(x)) => Ok(x),
            _ => Err(DataValueConversionError { needed: SimpleDataType::Float, got }),
        }
    }

    /// The frame this value holds.
    pub fn into_vframe(self) -> (r: Result<Frame, DataValueConversionError>)
        ensures
            match self {
                DataValue::Simple(SimpleDataValue::VideoFrame(x)) => r == Ok::<
                    Frame,
                    DataValueConversionError,
                >(x),
                _ => r == Err::<Frame, DataValueConversionError>(
                    DataValueConversionError { needed: SimpleDataType::VideoFrame, got: self.spec_typ() },
                ),
            },
    {
        let got = self.typ();
        match self {
            DataValue::Simple(SimpleDataValue::VideoFrame(x)) => Ok(x),
            _ => Err(DataValueConversionError { needed: SimpleDataType::VideoFrame, got }),
        }
    }

    /// The string this value holds.
    pub fn into_string(self) -> (r: Result<String, DataValueConversionError>)
        ensures
            match self {
                DataValue::Simple(SimpleDataValue::String(x)) => r == Ok::<
                    String,
                    DataValueConversionError,
                >(x),
                _ => r == Err::<String, DataValueConversionError>(
                    DataValueConversionError { needed: SimpleDataType::String, got: self.spec_typ() },
                ),
            },
    {
        let got = self.typ();
        match self {
            DataValue::Simple(SimpleDataValue::String(x)) => Ok(x),
            _ => Err(DataValueConversionError { needed: SimpleDataType::String, got }),
        }
    }

    /// The path this value holds.
    pub fn into_path(self) -> (r: Result<String, DataValueConversionError>)
        ensures
            match self {
                DataValue::Simple(SimpleDataValue::Path(x)) => r == Ok::<String, DataValueConversionError>(x),
                _ => r == Err::<String, DataValueConversionError>(
                    DataValueConversionError { needed: SimpleDataType::Path, got: self.spec_typ() },
                ),
            },
    {
        let got = self.typ();
        match self {
            DataValue::Simple(SimpleDataValue::Path(x)) => Ok(x),
            _ => Err(DataValueConversionError { needed: SimpleDataType::Path, got }),
        }
    }
}

// === Tracks ================================================================

/// A sequence of values, one per frame number.
pub trait Track {
    /// How many frames the track has.
    fn length(&self) -> u64;

    /// The type of every value of the track.
    fn typ(&self) -> SimpleDataType;

    /// The value at `frame_num`.
    fn render(&mut self, frame_num: u64) -> SimpleDataValue;
}

/// `s` is in ascending order.
pub open spec fn ascending(s: Seq<u64>) -> bool {
    forall|i: int, j: int| 0 <= i <= j < s.len() ==> s[i] <= s[j]
}

/// `p` splits `keyframes` into those at or before `frame_num` and those after.
pub open spec fn splits_at(keyframes: Seq<u64>, frame_num: u64, p: int) -> bool {
    &&& 0 <= p <= keyframes.len()
    &&& forall|i: int| 0 <= i < p ==> keyframes[i] <= frame_num
    &&& forall|i: int| p <= i < keyframes.len() ==> keyframes[i] > frame_num
}

/// A video file read as a track of frames: where it is, how many frames it
/// has, and which of them are keyframes, in ascending order.
#[derive(Debug, Clone)]
pub struct SourceTrack {
    pub path: String,
    pub frame_count: u64,
    pub keyframes: Vec<u64>,
}

impl SourceTrack {
    pub fn new(path: String, frame_count: u64, keyframes: Vec<u64>) -> (r: SourceTrack)
        ensures
            r.path == path,
            r.frame_count == frame_count,
            r.keyframes@ == keyframes@,
    {
        SourceTrack { path, frame_count, keyframes }
    }

    /// How many frames the file has.
    pub fn length(&self) -> (r: u64)
        ensures
            r == self.frame_count,
    {
        self.frame_count
    }

    /// A source track holds video frames.
    pub fn typ(&self) -> (r: SimpleDataType)
        ensures
            r == SimpleDataType::VideoFrame,
    {
        SimpleDataType::VideoFrame
    }

    /// The span of frames to decode for `frame_num`: from the last keyframe
    /// at or before it to the frame before the next keyframe (or the last
    /// frame of the file).
    pub fn find_nearest_keyframes(&self, frame_num: u64) -> (r: [u64; 2])
        requires
            ascending(self.keyframes@),
            self.keyframes@.len() > 0,
            self.keyframes@[0] <= frame_num,
            (forall|i: int| 0 <= i < self.keyframes@.len() ==> self.keyframes@[i] <= frame_num) ==> self.frame_count
                > 0,
        ensures
            exists|p: int|
                splits_at(self.keyframes@, frame_num, p) && p >= 1 && r@[0] == self.keyframes@[p - 1] && r@[1]
                    == (if p < self.keyframes@.len() {
                    self.keyframes@[p]
                } else {
                    self.frame_count
                }) - 1,
    {
        let ks = &self.keyframes;
        let mut p: usize = 0;
        while p < ks.len() && ks[p] <= frame_num
            invariant
                p <= ks@.len(),
                forall|i: int| 0 <= i < p ==> ks@[i] <= frame_num,
            decreases ks@.len() - p,
        {
            p = p + 1;
        }
        proof {
            assert(splits_at(ks@, frame_num, p as int)) by {
                assert forall|i: int| p <= i < ks@.len() implies ks@[i] > frame_num by {
                    assert(ks@[p as int] <= ks@[i]);
                }
            }
        }
        let first = ks[p - 1];
        let next = if p < ks.len() {
            ks[p]
        } else {
            self.frame_count
        };
        [first, next - 1]
    }
}

} // verus!
