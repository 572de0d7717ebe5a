use vstd::prelude::*;

use crate::id::{CanId, IdView};

verus! {

broadcast use vstd::array::group_array_axioms;

/// A CAN data frame: an identifier and up to eight bytes of payload.
#[derive(Debug, PartialEq, Eq, Clone)]
pub struct DataFrame {
    pub id: CanId,
    pub data: Data,
}

/// The payload of a data frame: at most eight bytes.
///
/// The bytes past the payload's length are always zero, so that two payloads
/// compare equal exactly when they hold the same bytes.
#[derive(Debug, Clone, Copy, PartialEq, Eq)]
pub struct Data {
    bytes: [u8; 8],
    len: u8,
}

/// A CAN remote frame: an identifier and a requested data length.
#[derive(Debug, PartialEq, Eq, Clone, Copy)]
pub struct RemoteFrame {
    pub id: CanId,
    pub dlc: u8,
}

/// A CAN frame.
#[derive(Debug, PartialEq, Eq, Clone)]
pub enum Frame {
    Data(DataFrame),
    Remote(RemoteFrame),
}

/// The mathematical value of a frame.
pub enum FrameView {
    Data { id: IdView, data: Seq<u8> },
    Remote { id: IdView, dlc: u8 },
}

impl FrameView {
    pub open spec fn id(self) -> IdView {
        match self {
            FrameView::Data { id, .. } => id,
            FrameView::Remote { id, .. } => id,
        }
    }

    /// The data length code: the payload length of a data frame, the
    /// requested length of a remote frame.
    pub open spec fn dlc(self) -> nat {
        match self {
            FrameView::Data { data, .. } => data.len(),
            FrameView::Remote { dlc, .. } => dlc as nat,
        }
    }

    /// The payload: empty for a remote frame.
    pub open spec fn data(self) -> Seq<u8> {
        match self {
            FrameView::Data { data, .. } => data,
            FrameView::Remote { .. } => Seq::empty(),
        }
    }

    /// What every frame value satisfies: the identifier is in range and a
    /// payload holds at most eight bytes.
    pub open spec fn valid(self) -> bool {
        &&& self.id().in_range()
        &&& self is Data ==> self.data().len() <= 8
    }
}

impl View for Data {
    type V = Seq<u8>;

    closed spec fn view(&self) -> Seq<u8> {
        self.bytes@.subrange(0, self.len as int)
    }
}

impl Data {
    /// At most eight bytes, and the unused bytes are zero.
    #[verifier::type_invariant]
    pub closed spec fn wf(self) -> bool {
        &&& self.len <= 8
        &&& forall|i: int| self.len <= i < 8 ==> #[trigger] self.bytes@[i] == 0
    }

    /// Builds a payload from at most eight bytes.
    fn from_slice(data: &[u8]) -> (r: Data)
        requires
            data@.len() <= 8,
        ensures
            r@ == data@,
            r.wf(),
    {
        let mut bytes = [0u8; 8];
        let n = data.len();
        let mut i: usize = 0;
        while i < n
            invariant
                n == data@.len(),
                n <= 8,
                i <= n,
                forall|j: int| 0 <= j < i ==> bytes@[j] == data@[j],
                forall|j: int| i <= j < 8 ==> #[trigger] bytes@[j] == 0,
            decreases n - i,
        {
            bytes[i] = data[i];
            i = i + 1;
        }
        let r = Data { bytes, len: n as u8 };
        assert(r@ =~= data@);
        r
    }

    /// Overwrites the payload byte at `index`, which must be below the
    /// payload's length.
    pub fn set(&mut self, index: usize, value: u8)
        requires
            index < old(self)@.len(),
        ensures
            final(self)@ == old(self)@.update(index as int, value),
    {
        proof {
            use_type_invariant(&*self);
        }
        if index < self.len as usize {
            self.bytes[index] = value;
        }
        assert(self@ =~= old(self)@.update(index as int, value));
    }

    /// The number of payload bytes.
    pub(crate) fn len(&self) -> (r: usize)
        ensures
            r == self@.len(),
            r <= 8,
    {
        proof {
            use_type_invariant(self);
        }
        self.len as usize
    }

    /// The payload bytes.
    pub(crate) fn as_slice(&self) -> (r: &[u8])
        ensures
            r@ == self@,
            r@.len() <= 8,
    {
        proof {
            use_type_invariant(self);
        }
        vstd::slice::slice_subrange(self.bytes.as_slice(), 0, self.len as usize)
    }

    /// A well-formed payload holds at most eight bytes.
    pub proof fn lemma_wf_len(d: Data)
        requires
            d.wf(),
        ensures
            d@.len() <= 8,
    {
    }

    /// Two well-formed payloads are the same exactly when they hold the same bytes.
    pub proof fn lemma_view_injective(a: Data, b: Data)
        requires
            a.wf(),
            b.wf(),
        ensures
            a@ == b@ <==> a == b,
    {
        if a@ == b@ {
            assert(a.bytes@.len() == 8 && b.bytes@.len() == 8);
            assert(a@.len() == a.len && b@.len() == b.len);
            assert forall|i: int| 0 <= i < 8 implies a.bytes@[i] == b.bytes@[i] by {
                if i < a.len {
                    assert(a@[i] == b@[i]);
                }
            }
            assert(a.bytes =~= b.bytes);
        }
    }
}

impl core::ops::Index<usize> for Data {
    type Output = u8;

    /// The payload byte at `index`, which must be below the payload's length.
    fn index(&self, index: usize) -> (r: &u8)
        ensures
            *r == self@[index as int],
    {
        let payload = self.as_slice();
        &payload[index]
    }
}

impl vstd::std_specs::core::IndexSpecImpl<usize> for Data {
    open spec fn index_req(&self, index: &usize) -> bool {
        *index < self@.len()
    }
}

impl DataFrame {
    /// Overwrites the payload byte at `index`, which must be below the
    /// payload's length.
    pub fn set(&mut self, index: usize, value: u8)
        requires
            index < old(self).data@.len(),
        ensures
            final(self).id == old(self).id,
            final(self).data@ == old(self).data@.update(index as int, value),
    {
        self.data.set(index, value);
    }
}

impl core::ops::Index<usize> for DataFrame {
    type Output = u8;

    /// The payload byte at `index`, which must be below the payload's length.
    fn index(&self, index: usize) -> (r: &u8)
        ensures
            *r == self.data@[index as int],
    {
        &self.data[index]
    }
}

impl vstd::std_specs::core::IndexSpecImpl<usize> for DataFrame {
    open spec fn index_req(&self, index: &usize) -> bool {
        *index < self.data@.len()
    }
}

impl View for Frame {
    type V = FrameView;

    open spec fn view(&self) -> FrameView {
        match self {
            Frame::Data(f) => FrameView::Data { id: f.id@, data: f.data@ },
            Frame::Remote(f) => FrameView::Remote { id: f.id@, dlc: f.dlc },
        }
    }
}

impl Frame {
    /// Every frame value satisfies this: its identifier and payload are well formed.
    pub open spec fn wf(self) -> bool {
        match self {
            Frame::Data(f) => f.id.wf() && f.data.wf(),
            Frame::Remote(f) => f.id.wf(),
        }
    }

    /// A data frame with the given identifier and payload, or `None` when the
    /// payload is longer than eight bytes.
    pub fn new(id: CanId, data: &[u8]) -> (r: Option<Frame>)
        ensures
            r is Some <==> data@.len() <= 8,
            r matches Some(f) ==> f@ == (FrameView::Data { id: id@, data: data@ }) && f is Data
                && f.id_spec() == id && (id.wf() ==> f.wf()),
    {
        if data.len() <= 8 {
            Some(Frame::Data(DataFrame { id, data: Data::from_slice(data) }))
        } else {
            None
        }
    }

    /// A remote frame with the given identifier and data length code, or
    /// `None` when the code exceeds eight.
    pub fn new_remote(id: CanId, dlc: u8) -> (r: Option<Frame>)
        ensures
            r is Some <==> dlc <= 8,
            r matches Some(f) ==> f == Frame::Remote(RemoteFrame { id, dlc }),
    {
        if dlc <= 8 {
            Some(Frame::Remote(RemoteFrame { id, dlc }))
        } else {
            None
        }
    }

    pub fn is_standard(&self) -> (r: bool)
        ensures
            r <==> self@.id().is_standard(),
    {
        match self {
            Frame::Data(frame) => frame.id.is_standard(),
            Frame::Remote(frame) => frame.id.is_standard(),
        }
    }

    pub fn is_extended(&self) -> (r: bool)
        ensures
            r <==> !self@.id().is_standard(),
    {
        !self.is_standard()
    }

    pub fn is_data_frame(&self) -> (r: bool)
        ensures
            r <==> self is Data,
    {
        match self {
            Frame::Data(_) => true,
            Frame::Remote(_) => false,
        }
    }

    pub fn is_remote_frame(&self) -> (r: bool)
        ensures
            r <==> self is Remote,
    {
        !self.is_data_frame()
    }

    /// The identifier of the frame.
    pub open spec fn id_spec(self) -> CanId {
        match self {
            Frame::Data(frame) => frame.id,
            Frame::Remote(frame) => frame.id,
        }
    }

    pub fn id(&self) -> (r: CanId)
        ensures
            r == self.id_spec(),
            r@ == self@.id(),
    {
        match self {
            Frame::Data(frame) => frame.id,
            Frame::Remote(frame) => frame.id,
        }
    }

    pub fn dlc(&self) -> (r: usize)
        ensures
            r == self@.dlc(),
            self is Data ==> r <= 8,
    {
        match self {
            Frame::Data(frame) => frame.data.len(),
            Frame::Remote(frame) => frame.dlc as usize,
        }
    }

    pub fn data(&self) -> (r: &[u8])
        ensures
            r@ == self@.data(),
            r@.len() <= 8,
    {
        match self {
            Frame::Data(frame) => frame.data.as_slice(),
            Frame::Remote(_) => {
                let empty: &[u8] = &[];
                assert(empty@ =~= Seq::<u8>::empty());
                empty
            },
        }
    }

    pub fn as_data_frame(&self) -> (r: Option<&DataFrame>)
        ensures
            r is Some <==> self is Data,
            r matches Some(f) ==> *self == Frame::Data(*f),
    {
        match self {
            Frame::Data(frame) => Some(frame),
            Frame::Remote(_) => None,
        }
    }

    pub fn as_remote_frame(&self) -> (r: Option<&RemoteFrame>)
        ensures
            r is Some <==> self is Remote,
            r matches Some(f) ==> *self == Frame::Remote(*f),
    {
        match self {
            Frame::Data(_) => None,
            Frame::Remote(frame) => Some(frame),
        }
    }

    /// A well-formed frame has a valid view.
    pub proof fn lemma_wf_valid(f: Frame)
        requires
            f.wf(),
        ensures
            f@.valid(),
    {
        CanId::lemma_wf_in_range(f.id_spec());
        if let Frame::Data(d) = f {
            Data::lemma_wf_len(d.data);
        }
    }

    /// Two well-formed frames are the same exactly when their views are.
    pub proof fn lemma_view_injective(a: Frame, b: Frame)
        requires
            a.wf(),
            b.wf(),
        ensures
            a@ == b@ <==> a == b,
    {
        match (a, b) {
            (Frame::Data(x), Frame::Data(y)) => {
                CanId::lemma_view_injective(x.id, y.id);
                Data::lemma_view_injective(x.data, y.data);
            },
            (Frame::Remote(x), Frame::Remote(y)) => {
                CanId::lemma_view_injective(x.id, y.id);
            },
            _ => {},
        }
    }
}

impl From<DataFrame> for Frame {
    fn from(frame: DataFrame) -> (r: Self)
        ensures
            r == Frame::Data(frame),
    {
        Frame::Data(frame)
    }
}

impl vstd::std_specs::convert::FromSpecImpl<DataFrame> for Frame {
    open spec fn obeys_from_spec() -> bool {
        true
    }

    open spec fn from_spec(frame: DataFrame) -> Frame {
        Frame::Data(frame)
    }
}

impl From<RemoteFrame> for Frame {
    fn from(frame: RemoteFrame) -> (r: Self)
        ensures
            r == Frame::Remote(frame),
    {
        Frame::Remote(frame)
    }
}

impl vstd::std_specs::convert::FromSpecImpl<RemoteFrame> for Frame {
    open spec fn obeys_from_spec() -> bool {
        true
    }

    open spec fn from_spec(frame: RemoteFrame) -> Frame {
        Frame::Remote(frame)
    }
}

/// The error of converting a remote frame into a data frame; it hands the
/// frame back.
#[derive(Debug, PartialEq, Eq, Clone)]
pub struct NotADataFrame(pub Frame);

impl NotADataFrame {
    /// The text that describes the error.
    pub fn message(&self) -> (r: &'static str)
        ensures
            r@ == "expected a data frame, got a remote frame"@,
    {
        "expected a data frame, got a remote frame"
    }
}

/// The error of converting a data frame into a remote frame; it hands the
/// frame back.
#[derive(Debug, PartialEq, Eq, Clone)]
pub struct NotARemoteFrame(pub Frame);

impl NotARemoteFrame {
    /// The text that describes the error.
    pub fn message(&self) -> (r: &'static str)
        ensures
            r@ == "expected a remote frame, got a data frame"@,
    {
        "expected a remote frame, got a data frame"
    }
}

impl TryFrom<Frame> for DataFrame {
    type Error = NotADataFrame;

    fn try_from(value: Frame) -> (r: Result<Self, Self::Error>)
        ensures
            r == (match value {
                Frame::Data(frame) => Ok(frame),
                Frame::Remote(_) => Err(NotADataFrame(value)),
            }),
    {
        match value {
            Frame::Data(frame) => Ok(frame),
            Frame::Remote(_) => Err(NotADataFrame(value)),
        }
    }
}

impl vstd::std_specs::convert::TryFromSpecImpl<Frame> for DataFrame {
    open spec fn obeys_try_from_spec() -> bool {
        true
    }

    open spec fn try_from_spec(value: Frame) -> Result<DataFrame, NotADataFrame> {
        match value {
            Frame::Data(frame) => Ok(frame),
            Frame::Remote(_) => Err(NotADataFrame(value)),
        }
    }
}

impl TryFrom<Frame> for RemoteFrame {
    type Error = NotARemoteFrame;

    fn try_from(value: Frame) -> (r: Result<Self, Self::Error>)
        ensures
            r == (match value {
                Frame::Data(_) => Err(NotARemoteFrame(value)),
                Frame::Remote(frame) => Ok(frame),
            }),
    {
        match value {
            Frame::Data(_) => Err(NotARemoteFrame(value)),
            Frame::Remote(frame) => Ok(frame),
        }
    }
}

impl vstd::std_specs::convert::TryFromSpecImpl<Frame> for RemoteFrame {
    open spec fn obeys_try_from_spec() -> bool {
        true
    }

    open spec fn try_from_spec(value: Frame) -> Result<RemoteFrame, NotARemoteFrame> {
        match value {
            Frame::Data(_) => Err(NotARemoteFrame(value)),
            Frame::Remote(frame) => Ok(frame),
        }
    }
}

} // verus!
