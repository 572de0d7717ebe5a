use vstd::prelude::*;

use crate::parse::encode::{checksum, byte_sum, lemma_byte_sum_step};
use crate::parse::proto::{le_u32, u32_to_le};

verus! {

/// The bit rate of the CAN bus.
#[derive(Debug, PartialEq, Clone, Copy)]
pub enum Baudrate {
    Baud1M,
    Baud800K,
    Baud500K,
    Baud400K,
    Baud250K,
    Baud200K,
    Baud125K,
    Baud100K,
    Baud50K,
    Baud20K,
    Baud10K,
    Baud5K,
}

/// The kind of identifier the adapter works with.
#[derive(Debug, PartialEq, Clone, Copy)]
pub enum FrameType {
    Standard,
    Extended,
}

/// The operating mode of the adapter.
#[derive(Debug, PartialEq, Clone, Copy)]
pub enum OpMode {
    Normal,
    Loopback,
    Silent,
    LoopbackSilent,
}

/// The settings that the adapter is configured with.
#[derive(Debug, PartialEq, Clone)]
pub struct Config {
    pub baud: Baudrate,
    pub frame_type: FrameType,
    pub op_mode: OpMode,
    pub filter_id: u32,
    pub filter_mask: u32,
}

impl Baudrate {
    /// The byte that stands for the bit rate in a configuration command.
    pub open spec fn spec_code(self) -> u8 {
        match self {
            Baudrate::Baud1M => 0x01,
            Baudrate::Baud800K => 0x02,
            Baudrate::Baud500K => 0x03,
            Baudrate::Baud400K => 0x04,
            Baudrate::Baud250K => 0x05,
            Baudrate::Baud200K => 0x06,
            Baudrate::Baud125K => 0x07,
            Baudrate::Baud100K => 0x08,
            Baudrate::Baud50K => 0x09,
            Baudrate::Baud20K => 0x0A,
            Baudrate::Baud10K => 0x0B,
            Baudrate::Baud5K => 0x0C,
        }
    }

    pub fn code(self) -> (r: u8)
        ensures
            r == self.spec_code(),
    {
        match self {
            Baudrate::Baud1M => 0x01,
            Baudrate::Baud800K => 0x02,
            Baudrate::Baud500K => 0x03,
            Baudrate::Baud400K => 0x04,
            Baudrate::Baud250K => 0x05,
            Baudrate::Baud200K => 0x06,
            Baudrate::Baud125K => 0x07,
            Baudrate::Baud100K => 0x08,
            Baudrate::Baud50K => 0x09,
            Baudrate::Baud20K => 0x0A,
            Baudrate::Baud10K => 0x0B,
            Baudrate::Baud5K => 0x0C,
        }
    }
}

impl FrameType {
    /// The byte that stands for the kind of identifier in a configuration command.
    pub open spec fn spec_code(self) -> u8 {
        match self {
            FrameType::Standard => 0x01,
            FrameType::Extended => 0x02,
        }
    }

    pub fn code(self) -> (r: u8)
        ensures
            r == self.spec_code(),
    {
        match self {
            FrameType::Standard => 0x01,
            FrameType::Extended => 0x02,
        }
    }
}

impl OpMode {
    /// The byte that stands for the operating mode in a configuration command.
    pub open spec fn spec_code(self) -> u8 {
        match self {
            OpMode::Normal => 0x00,
            OpMode::Loopback => 0x01,
            OpMode::Silent => 0x02,
            OpMode::LoopbackSilent => 0x03,
        }
    }

    pub fn code(self) -> (r: u8)
        ensures
            r == self.spec_code(),
    {
        match self {
            OpMode::Normal => 0x00,
            OpMode::Loopback => 0x01,
            OpMode::Silent => 0x02,
            OpMode::LoopbackSilent => 0x03,
        }
    }
}

/// The first 19 bytes of the configuration command: the header `AA 55`, the
/// command byte `12`, bit rate, frame type, filter identifier and filter mask
/// (each least significant byte first), operating mode, a `01` byte and four
/// reserved zero bytes.
pub open spec fn command_body(c: Config) -> Seq<u8> {
    seq![0xAAu8, 0x55u8, 0x12u8, c.baud.spec_code(), c.frame_type.spec_code()] + le_u32(c.filter_id)
        + le_u32(c.filter_mask) + seq![c.op_mode.spec_code(), 0x01u8, 0u8, 0u8, 0u8, 0u8]
}

/// The configuration command: the body and the checksum of its bytes from the
/// command byte on.
pub open spec fn command_bytes(c: Config) -> Seq<u8> {
    command_body(c).push(checksum(command_body(c).subrange(2, 19)))
}

impl Config {
    /// The 20-byte command that configures the adapter with these settings.
    pub fn to_command(self) -> (r: [u8; 20])
        ensures
            r@ == command_bytes(self),
    {
        let ghost body = command_body(self);
        let mut f = [0u8; 20];
        f[0] = 0xAA;
        f[1] = 0x55;
        f[2] = 0x12;
        f[3] = self.baud.code();
        f[4] = self.frame_type.code();
        let id = u32_to_le(self.filter_id);
        let mask = u32_to_le(self.filter_mask);
        let mut k: usize = 0;
        while k < 4
            invariant
                k <= 4,
                f@.len() == 20,
                id@ == le_u32(self.filter_id),
                mask@ == le_u32(self.filter_mask),
                body == command_body(self),
                forall|j: int| 0 <= j < 5 ==> f@[j] == body[j],
                forall|j: int| 5 <= j < 5 + k ==> f@[j] == body[j],
                forall|j: int| 9 <= j < 9 + k ==> f@[j] == body[j],
                forall|j: int| 13 <= j < 20 ==> f@[j] == 0,
            decreases 4 - k,
        {
            f[5 + k] = id[k];
            f[9 + k] = mask[k];
            k += 1;
        }
        f[13] = self.op_mode.code();
        f[14] = 0x01;
        // f[15..19] stay reserved, zero
        assert forall|j: int| 0 <= j < 19 implies f@[j] == body[j] by {
            if j >= 15 {
                assert(body[j] == 0);
            }
        }

        let mut sum: u8 = 0;
        let mut c: usize = 2;
        assert(f@.subrange(2, 2) =~= Seq::<u8>::empty());
        while c < 19
            invariant
                2 <= c <= 19,
                f@.len() == 20,
                forall|j: int| 0 <= j < 19 ==> f@[j] == body[j],
                sum == checksum(f@.subrange(2, c as int)),
            decreases 19 - c,
        {
            proof {
                lemma_byte_sum_step(f@, 2, c as int);
                let x = byte_sum(f@.subrange(2, c as int));
                vstd::arithmetic::div_mod::lemma_add_mod_noop(x as int, f@[c as int] as int, 256);
            }
            sum = sum.wrapping_add(f[c]);
            c += 1;
        }
        assert(f@.subrange(2, 19) =~= body.subrange(2, 19));
        f[19] = sum;
        assert(f@ =~= command_bytes(self));
        f
    }
}

/// The configuration command carries the adapter's codes: its byte 3 is the
/// bit rate (1 Mbit/s is 01, then one more for each slower rate down to
/// 5 kbit/s at 0C), byte 4 the kind of identifier (standard 01, extended 02)
/// and byte 13 the operating mode (normal 00, loopback 01, silent 02, both 03).
pub proof fn lemma_command_codes(c: Config)
    ensures
        command_bytes(c).len() == 20,
        command_bytes(c)[0] == 0xAA && command_bytes(c)[1] == 0x55 && command_bytes(c)[2] == 0x12,
        command_bytes(c)[3] == match c.baud {
            Baudrate::Baud1M => 0x01u8,
            Baudrate::Baud800K => 0x02u8,
            Baudrate::Baud500K => 0x03u8,
            Baudrate::Baud400K => 0x04u8,
            Baudrate::Baud250K => 0x05u8,
            Baudrate::Baud200K => 0x06u8,
            Baudrate::Baud125K => 0x07u8,
            Baudrate::Baud100K => 0x08u8,
            Baudrate::Baud50K => 0x09u8,
            Baudrate::Baud20K => 0x0Au8,
            Baudrate::Baud10K => 0x0Bu8,
            Baudrate::Baud5K => 0x0Cu8,
        },
        command_bytes(c)[4] == match c.frame_type {
            FrameType::Standard => 0x01u8,
            FrameType::Extended => 0x02u8,
        },
        command_bytes(c)[13] == match c.op_mode {
            OpMode::Normal => 0x00u8,
            OpMode::Loopback => 0x01u8,
            OpMode::Silent => 0x02u8,
            OpMode::LoopbackSilent => 0x03u8,
        },
        command_bytes(c)[14] == 0x01,
{
}

} // verus!
