use vstd::prelude::*;
use crate::error::Error;

verus! {

/// Largest identifier of the 11-bit standard form.
pub const STANDARD_ID_MAX: u16 = 0x7FF;

/// Largest identifier of the 29-bit extended form.
pub const EXTENDED_ID_MAX: u32 = 0x1FFF_FFFF;

/// An 11-bit CAN identifier.
#[derive(Debug, Clone, Copy, PartialEq, Eq, Structural)]
pub struct StandardId(u16);

/// A 29-bit CAN identifier.
#[derive(Debug, Clone, Copy, PartialEq, Eq, Structural)]
pub struct ExtendedId(u32);

impl StandardId {
    #[verifier::type_invariant]
    spec fn fits(self) -> bool {
        self.0 <= STANDARD_ID_MAX
    }

    /// The numeric identifier.
    pub closed spec fn raw(self) -> u16 {
        self.0
    }

    /// The identifier whose number is `raw`.
    pub closed spec fn from_raw(raw: u16) -> Self {
        StandardId(raw)
    }

    /// Checked construction: `None` when `raw` does not fit in 11 bits.
    pub fn new(raw: u16) -> (r: Option<Self>)
        ensures
            r is Some <==> raw <= STANDARD_ID_MAX,
            r is Some ==> r->0.raw() == raw && r->0 == Self::from_raw(raw),
    {
        if raw <= STANDARD_ID_MAX {
            Some(StandardId(raw))
        } else {
            None
        }
    }

    /// Construction for a value already known to fit.
    pub fn new_unchecked(raw: u16) -> (r: Self)
        requires
            raw <= STANDARD_ID_MAX,
        ensures
            r.raw() == raw,
            r == Self::from_raw(raw),
    {
        StandardId(raw)
    }

    pub fn as_raw(&self) -> (r: u16)
        ensures
            r == self.raw(),
            r <= STANDARD_ID_MAX,
    {
        proof {
            use_type_invariant(self);
        }
        self.0
    }
}

impl ExtendedId {
    #[verifier::type_invariant]
    spec fn fits(self) -> bool {
        self.0 <= EXTENDED_ID_MAX
    }

    /// The numeric identifier.
    pub closed spec fn raw(self) -> u32 {
        self.0
    }

    /// The identifier whose number is `raw`.
    pub closed spec fn from_raw(raw: u32) -> Self {
        ExtendedId(raw)
    }

    /// Checked construction: `None` when `raw` does not fit in 29 bits.
    pub fn new(raw: u32) -> (r: Option<Self>)
        ensures
            r is Some <==> raw <= EXTENDED_ID_MAX,
            r is Some ==> r->0.raw() == raw && r->0 == Self::from_raw(raw),
    {
        if raw <= EXTENDED_ID_MAX {
            Some(ExtendedId(raw))
        } else {
            None
        }
    }

    /// Construction for a value already known to fit.
    pub fn new_unchecked(raw: u32) -> (r: Self)
        requires
            raw <= EXTENDED_ID_MAX,
        ensures
            r.raw() == raw,
            r == Self::from_raw(raw),
    {
        ExtendedId(raw)
    }

    pub fn as_raw(&self) -> (r: u32)
        ensures
            r == self.raw(),
            r <= EXTENDED_ID_MAX,
    {
        proof {
            use_type_invariant(self);
        }
        self.0
    }
}

/// A bus address in either identifier form.
#[derive(Debug, Clone, Copy, PartialEq, Eq, Structural)]
pub enum Id {
    Standard(StandardId),
    Extended(ExtendedId),
}

impl Id {
    /// The numeric identifier, whatever its form.
    pub open spec fn raw(self) -> u32 {
        match self {
            Id::Standard(s) => s.raw() as u32,
            Id::Extended(e) => e.raw(),
        }
    }

    pub fn as_raw(&self) -> (r: u32)
        ensures
            r == self.raw(),
    {
        match self {
            Id::Standard(s) => s.as_raw() as u32,
            Id::Extended(e) => e.as_raw(),
        }
    }
}

impl From<StandardId> for Id {
    fn from(id: StandardId) -> (r: Id)
        ensures
            r == Id::Standard(id),
    {
        Id::Standard(id)
    }
}

impl vstd::std_specs::convert::FromSpecImpl<StandardId> for Id {
    open spec fn obeys_from_spec() -> bool {
        true
    }

    open spec fn from_spec(v: StandardId) -> Id {
        Id::Standard(v)
    }
}

impl From<ExtendedId> for Id {
    fn from(id: ExtendedId) -> (r: Id)
        ensures
            r == Id::Extended(id),
    {
        Id::Extended(id)
    }
}

impl vstd::std_specs::convert::FromSpecImpl<ExtendedId> for Id {
    open spec fn obeys_from_spec() -> bool {
        true
    }

    open spec fn from_spec(v: ExtendedId) -> Id {
        Id::Extended(v)
    }
}

/// A raw CAN frame: an identifier and up to eight payload bytes, kept in an
/// eight-byte buffer.
#[derive(Debug)]
pub struct CANFrame {
    id: u32,
    data_len: u8,
    data: Vec<u8>,
}

impl CANFrame {
    #[verifier::type_invariant]
    spec fn well_formed(self) -> bool {
        &&& self.data@.len() == 8
        &&& self.data_len <= 8
    }

    /// The identifier the frame is sent to.
    pub closed spec fn id_spec(self) -> u32 {
        self.id
    }

    /// The payload: the first `data_len` bytes of the buffer.
    pub closed spec fn payload(self) -> Seq<u8> {
        self.data@.subrange(0, self.data_len as int)
    }

    /// The eight bytes on the wire.
    pub closed spec fn wire(self) -> Seq<u8> {
        self.data@
    }

    /// Builds a frame whose buffer is `data` followed by zero bytes. Fails with
    /// `Config` when `id` is wider than 29 bits, else with `Framing` when `data`
    /// holds more than eight bytes.
    pub fn new(id: u32, data: &[u8], _rtr: bool, _err: bool) -> (r: Result<Self, Error>)
        ensures
            id > EXTENDED_ID_MAX ==> r == Err::<Self, Error>(Error::Config),
            id <= EXTENDED_ID_MAX && data@.len() > 8 ==> r == Err::<Self, Error>(Error::Framing),
            id <= EXTENDED_ID_MAX && data@.len() <= 8 ==> r is Ok,
            r is Ok ==> {
                let f = r->Ok_0;
                &&& f.id_spec() == id
                &&& f.payload() == data@
                &&& f.wire() == data@ + Seq::new((8 - data@.len()) as nat, |i: int| 0u8)
            },
    {
        if id > EXTENDED_ID_MAX {
            return Err(Error::Config);
        }
        if data.len() > 8 {
            return Err(Error::Framing);
        }
        let mut buf: Vec<u8> = Vec::new();
        let mut i: usize = 0;
        while i < 8
            invariant
                data@.len() <= 8,
                0 <= i <= 8,
                buf@.len() == i,
                forall|k: int| 0 <= k < i ==> buf@[k] == if k < data@.len() { data@[k] } else { 0u8 },
            decreases 8 - i,
        {
            if i < data.len() {
                buf.push(data[i]);
            } else {
                buf.push(0);
            }
            i = i + 1;
        }
        let f = CANFrame { id, data_len: data.len() as u8, data: buf };
        assert(f.payload() =~= data@);
        assert(f.wire() =~= data@ + Seq::new((8 - data@.len()) as nat, |i: int| 0u8));
        Ok(f)
    }

    pub fn id(&self) -> (r: u32)
        ensures
            r == self.id_spec(),
    {
        self.id
    }

    /// The payload bytes.
    pub fn data(&self) -> (r: Vec<u8>)
        ensures
            r@ == self.payload(),
    {
        proof {
            use_type_invariant(self);
        }
        let mut out: Vec<u8> = Vec::new();
        let n = self.data_len as usize;
        let mut i: usize = 0;
        while i < n
            invariant
                n <= 8,
                self.data@.len() == 8,
                n == self.data_len,
                0 <= i <= n,
                out@ == self.data@.subrange(0, i as int),
            decreases n - i,
        {
            out.push(self.data[i]);
            i = i + 1;
            assert(out@ =~= self.data@.subrange(0, i as int));
        }
        out
    }

    /// The eight bytes on the wire, payload and padding.
    pub fn wire_data(&self) -> (r: Vec<u8>)
        ensures
            r@ == self.wire(),
    {
        self.data.clone()
    }
}

/// A raw CAN socket bound to a named interface.
#[derive(Debug)]
pub struct CANSocket {
    ifname: String,
}

impl CANSocket {
    /// The interface name the socket was opened on.
    pub closed spec fn interface(self) -> Seq<char> {
        self.ifname@
    }

    /// Opens a socket on `ifname`.
    pub fn open(ifname: &str) -> (r: Result<Self, Error>)
        ensures
            r is Ok,
            r->Ok_0.interface() == ifname@,
    {
        Ok(CANSocket { ifname: ifname.to_owned() })
    }

    pub fn ifname(&self) -> (r: String)
        ensures
            r@ == self.interface(),
    {
        self.ifname.clone()
    }

    /// The stand-in socket always delivers the same frame: identifier 0, a
    /// one-byte payload, buffer `0, 1, ..., 7`.
    pub fn receive_can_frame(&self) -> (r: Result<CANFrame, Error>)
        ensures
            r is Ok,
            r->Ok_0.id_spec() == 0,
            r->Ok_0.payload() == seq![0u8],
            r->Ok_0.wire() == seq![0u8, 1, 2, 3, 4, 5, 6, 7],
    {
        let data: Vec<u8> = vec![0u8, 1, 2, 3, 4, 5, 6, 7];
        let f = CANFrame { id: 0, data_len: 1, data };
        assert(f.payload() =~= seq![0u8]);
        Ok(f)
    }
}

/// Receive-side flow-control settings; the stand-in socket keeps none of them.
pub struct FlowControlOptions;

impl FlowControlOptions {
    pub fn new(_bs: u8, _stmin: u8, _wftmax: u8) -> (r: Self) {
        FlowControlOptions
    }
}

/// An ISO-TP socket between a source and a destination address.
pub struct IsoTpSocket {
    ifname: String,
    src: Id,
    dest: Id,
    isotp_options: Option<String>,
    rx_flow_control_options: Option<FlowControlOptions>,
    link_layer_options: Option<String>,
}

impl IsoTpSocket {
    pub closed spec fn interface(self) -> Seq<char> {
        self.ifname@
    }

    pub closed spec fn source(self) -> Id {
        self.src
    }

    pub closed spec fn destination(self) -> Id {
        self.dest
    }

    /// True when the socket keeps no ISO-TP, flow-control or link-layer options.
    pub closed spec fn default_options(self) -> bool {
        &&& self.isotp_options is None
        &&& self.rx_flow_control_options is None
        &&& self.link_layer_options is None
    }

    /// Opens a socket on `ifname` from `src` to `dest`.
    pub fn open(ifname: &str, src: Id, dest: Id) -> (r: Result<Self, Error>)
        ensures
            r is Ok,
            r->Ok_0.interface() == ifname@,
            r->Ok_0.source() == src,
            r->Ok_0.destination() == dest,
            r->Ok_0.default_options(),
    {
        Ok(IsoTpSocket {
            ifname: ifname.to_owned(),
            src,
            dest,
            isotp_options: None,
            rx_flow_control_options: None,
            link_layer_options: None,
        })
    }

    /// Opens a socket as `open` does; the stand-in socket drops the options.
    pub fn open_with_opts(
        ifname: &str,
        src: Id,
        dest: Id,
        _isotp_options: Option<String>,
        _rx_flow_control_options: Option<FlowControlOptions>,
        _link_layer_options: Option<String>,
    ) -> (r: Result<Self, Error>)
        ensures
            r is Ok,
            r->Ok_0.interface() == ifname@,
            r->Ok_0.source() == src,
            r->Ok_0.destination() == dest,
            r->Ok_0.default_options(),
    {
        IsoTpSocket::open(ifname, src, dest)
    }

    pub fn ifname(&self) -> (r: String)
        ensures
            r@ == self.interface(),
    {
        self.ifname.clone()
    }

    pub fn src(&self) -> (r: Id)
        ensures
            r == self.source(),
    {
        self.src
    }

    pub fn dest(&self) -> (r: Id)
        ensures
            r == self.destination(),
    {
        self.dest
    }
}

/// The stand-in ISO-TP socket always delivers the datagram `1, 2, 3`.
pub fn receive_isotp_frame(_socket: &mut IsoTpSocket) -> (r: Result<Vec<u8>, Error>)
    ensures
        *final(_socket) == *old(_socket),
        r is Ok,
        r->Ok_0@ == seq![1u8, 2, 3],
{
    Ok(vec![1u8, 2, 3])
}

} // verus!
