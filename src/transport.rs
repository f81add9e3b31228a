use vstd::prelude::*;
use crate::frame::{Frame, FRAME_LEN};

verus! {

/// Largest payload that one write packet carries.
pub const MAX_PAYLOAD: usize = 255;

/// Mode byte that puts the device in binary mode.
pub const MODE_BINARY: u8 = 0;

/// Flag byte: write, auto-increment the address, send no acknowledgement.
pub const FLAGS_WRITE: u8 = 0b0010_0000;

/// The wire header of a packet that writes `len` bytes at `addr`: mode byte,
/// flag byte, address high and low byte, payload length.
pub open spec fn header_spec(addr: u16, len: nat) -> Seq<u8> {
    seq![MODE_BINARY, FLAGS_WRITE, (addr / 256) as u8, (addr % 256) as u8, len as u8]
}

/// Length of the chunk that starts at offset `off` of `len` bytes: as much as
/// one packet carries, or what is left.
pub open spec fn chunk_len(len: int, off: int) -> int {
    if len - off > MAX_PAYLOAD {
        MAX_PAYLOAD as int
    } else {
        len - off
    }
}

/// One addressed write of 1 to 255 bytes into the frame memory.
pub struct WritePacket {
    addr: u16,
    payload: Vec<u8>,
}

impl WritePacket {
    /// Target address of the first payload byte.
    pub closed spec fn addr_spec(&self) -> u16 {
        self.addr
    }

    /// The bytes written, from the target address on.
    pub closed spec fn payload_spec(&self) -> Seq<u8> {
        self.payload@
    }

    /// The payload holds 1 to 255 bytes and stays inside the frame memory.
    pub open spec fn wf(&self) -> bool {
        &&& 1 <= self.payload_spec().len() <= MAX_PAYLOAD
        &&& self.addr_spec() + self.payload_spec().len() <= FRAME_LEN
    }

    /// A packet that writes `payload` at `addr`.
    pub fn new(addr: u16, payload: Vec<u8>) -> (r: WritePacket)
        requires
            1 <= payload@.len() <= MAX_PAYLOAD,
            addr + payload@.len() <= FRAME_LEN,
        ensures
            r.wf(),
            r.addr_spec() == addr,
            r.payload_spec() == payload@,
    {
        WritePacket { addr, payload }
    }

    /// Target address of the first payload byte.
    pub fn addr(&self) -> (r: u16)
        ensures
            r == self.addr_spec(),
    {
        self.addr
    }

    /// The bytes written, from the target address on.
    pub fn payload(&self) -> (r: &Vec<u8>)
        ensures
            r@ == self.payload_spec(),
    {
        &self.payload
    }

    /// The five header bytes sent ahead of the payload.
    pub fn header(&self) -> (r: Vec<u8>)
        requires
            self.wf(),
        ensures
            r@ == header_spec(self.addr_spec(), self.payload_spec().len()),
    {
        let addr: u16 = self.addr;
        let hi: u8 = ((addr >> 8) & 0xff) as u8;
        let lo: u8 = (addr & 0xff) as u8;
        assert(hi == (addr / 256) as u8 && lo == (addr % 256) as u8) by (bit_vector)
            requires
                hi == ((addr >> 8) & 0xff) as u8,
                lo == (addr & 0xff) as u8,
        ;
        let mut r: Vec<u8> = Vec::new();
        r.push(MODE_BINARY);
        r.push(FLAGS_WRITE);
        r.push(hi);
        r.push(lo);
        r.push(self.payload.len() as u8);
        assert(r@ =~= header_spec(self.addr_spec(), self.payload_spec().len()));
        r
    }
}

/// What a range sender asks for next.
pub enum Step<E> {
    /// Write this packet, then report how it went to the returned sender.
    Write(RangeSender, WritePacket),
    /// Every byte of the range has been written.
    Complete,
    /// A write failed; its error, as it was reported.
    Abort(E),
}

/// Writes a byte range into the frame memory as a run of packets of at most
/// 255 bytes each, at increasing addresses, stopping at the first failure.
pub struct RangeSender {
    start: u16,
    data: Vec<u8>,
    sent: usize,
}

impl RangeSender {
    /// Address of the range's first byte.
    pub closed spec fn start_spec(&self) -> u16 {
        self.start
    }

    /// The bytes of the range.
    pub closed spec fn data_spec(&self) -> Seq<u8> {
        self.data@
    }

    /// How many bytes of the range have been handed out in packets.
    pub closed spec fn sent_spec(&self) -> nat {
        self.sent as nat
    }

    /// The range lies inside the frame memory and the bytes handed out are a
    /// prefix of it.
    pub open spec fn wf(&self) -> bool {
        &&& self.start_spec() + self.data_spec().len() <= FRAME_LEN
        &&& self.sent_spec() <= self.data_spec().len()
    }

    /// A sender for `data`, to be written from address `start` on.
    pub fn new(start: u16, data: Vec<u8>) -> (r: RangeSender)
        requires
            start + data@.len() <= FRAME_LEN,
        ensures
            r.wf(),
            r.start_spec() == start,
            r.data_spec() == data@,
            r.sent_spec() == 0,
    {
        RangeSender { start, data, sent: 0 }
    }

    /// A sender that sets the whole frame memory to `value`.
    pub fn fill(value: u8) -> (r: RangeSender)
        ensures
            r.wf(),
            r.start_spec() == 0,
            r.data_spec() == Seq::new(FRAME_LEN as nat, |k: int| value),
            r.sent_spec() == 0,
    {
        let mut data: Vec<u8> = Vec::new();
        let mut k: usize = 0;
        while k < FRAME_LEN
            invariant
                k <= FRAME_LEN,
                data@.len() == k,
                forall|i: int| 0 <= i < k ==> data@[i] == value,
            decreases FRAME_LEN - k,
        {
            data.push(value);
            k = k + 1;
        }
        assert(data@ =~= Seq::new(FRAME_LEN as nat, |k: int| value));
        RangeSender::new(0, data)
    }

    /// A sender that writes a whole frame, from address zero on.
    pub fn for_frame(frame: Frame) -> (r: RangeSender)
        requires
            frame.wf(),
        ensures
            r.wf(),
            r.start_spec() == 0,
            r.data_spec() == frame@,
            r.sent_spec() == 0,
    {
        RangeSender::new(0, frame.into_bytes())
    }

    /// Takes the outcome of the previous write (`Ok` before the first one) and
    /// says what to do next. A failure ends the run with its error unchanged;
    /// otherwise the next chunk of at most 255 bytes goes out at the address
    /// that follows the previous one, until the range is written.
    pub fn step<E>(self, last: Result<(), E>) -> (r: Step<E>)
        requires
            self.wf(),
        ensures
            match last {
                Err(e) => r == Step::<E>::Abort(e),
                Ok(_) => if self.sent_spec() == self.data_spec().len() {
                    r is Complete
                } else {
                    match r {
                        Step::Write(next, packet) => {
                            let off: int = self.sent_spec() as int;
                            let len: int = chunk_len(self.data_spec().len() as int, off);
                            &&& next.wf()
                            &&& next.start_spec() == self.start_spec()
                            &&& next.data_spec() == self.data_spec()
                            &&& next.sent_spec() == off + len
                            &&& packet.wf()
                            &&& packet.addr_spec() == self.start_spec() + off
                            &&& packet.payload_spec() == self.data_spec().subrange(off, off + len)
                        },
                        _ => false,
                    }
                },
            },
    {
        match last {
            Err(e) => Step::Abort(e),
            Ok(()) => {
                if self.sent == self.data.len() {
                    Step::Complete
                } else {
                    let left: usize = self.data.len() - self.sent;
                    let len: usize = if left > MAX_PAYLOAD {
                        MAX_PAYLOAD
                    } else {
                        left
                    };
                    let mut payload: Vec<u8> = Vec::new();
                    let mut t: usize = 0;
                    while t < len
                        invariant
                            t <= len,
                            self.sent + len <= self.data.len(),
                            payload@ == self.data@.subrange(self.sent as int, self.sent + t),
                        decreases len - t,
                    {
                        payload.push(self.data[self.sent + t]);
                        t = t + 1;
                        assert(payload@ =~= self.data@.subrange(self.sent as int, self.sent + t));
                    }
                    let addr: u16 = self.start + self.sent as u16;
                    let packet = WritePacket::new(addr, payload);
                    let next = RangeSender { start: self.start, data: self.data, sent: self.sent + len };
                    Step::Write(next, packet)
                }
            },
        }
    }
}

} // verus!
