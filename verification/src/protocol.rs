//! Wire format and parameter packing for the DBK2JP.
//!
//! Every command is 12 bytes, big-endian: a command id and five parameters. No
//! header, no checksum, no sequence number.

use vstd::prelude::*;

verus! {

// Session and control, on EP 0x06.
pub const CMD_STATUS: u16 = 0x0101;
pub const CMD_ENCRYPT_STATE: u16 = 0x0102;
pub const CMD_RUN: u16 = 0x0104;
pub const CMD_RESET: u16 = 0x0105;
pub const CMD_CLEAR_CACHE: u16 = 0x0106;
pub const CMD_PORT_OUT: u16 = 0x0111;
pub const CMD_PORT_OUT_STATE: u16 = 0x0112;
pub const CMD_ONLINE: u16 = 0x0118;
pub const CMD_REDLIGHT: u16 = 0x0171;

// Job parameters and geometry, inline in the EP 0x02 batch.
pub const CMD_LASER_TYPE: u16 = 0x0211;
pub const CMD_POWER: u16 = 0x0210;
pub const CMD_TICK: u16 = 0x0217;
pub const CMD_PEN_FPK: u16 = 0x0218;
pub const CMD_LASER_GATE: u16 = 0x0208;
pub const CMD_JUMP: u16 = 0x0241;
pub const CMD_MARK: u16 = 0x0243;
pub const CMD_AXIS_COUNT: u16 = 0x0230;
pub const CMD_AXIS_RATE: u16 = 0x0231;
pub const CMD_AXIS_P232: u16 = 0x0232;
pub const CMD_AXIS_GO: u16 = 0x0233;
pub const CMD_PORT_PULSE: u16 = 0x2F82;

/// The MOPA pulse-width frame.
pub const CMD_MOPA_PULSE: u16 = 0x0206;
/// Analog power out.
pub const CMD_ANALOG: u16 = 0x0207;
/// Laser port switch.
pub const CMD_PORT_SWITCH: u16 = 0x2F84;

/// 0x0211 Param1 bit 8: the MO / PA enable, outside the documented flag list.
/// With it clear both pins stay low however long the engine runs.
pub const MO_ENABLE: u16 = 0x0100;

/// 0x0206 with this Param0 is a four byte SPI frame: 0xA5 0x01, then Param1
/// big-endian, the pulse width in nanoseconds.
pub const MOPA_SPI_HDR: u16 = 0xA501;
/// The two SPI lines are also bits 1 and 2 of the parallel power word.
pub const MOPA_SPI_MASK: u8 = 0x06;

/// Timebase for every period and width field, kHz.
pub const FPGA_CLK_KHZ: u32 = 48000;

/// The six 16-bit fields of a command: its id and five parameters.
pub type Fields = [u16; 6];

/// A 16-bit field on the wire: high byte, then low byte.
pub open spec fn big_endian(v: u16) -> Seq<u8> {
    seq![(v / 256) as u8, (v % 256) as u8]
}

/// The 12 bytes of a command.
#[verifier::opaque]
pub open spec fn frame(id: u16, p0: u16, p1: u16, p2: u16, p3: u16, p4: u16) -> Seq<u8> {
    big_endian(id) + big_endian(p0) + big_endian(p1) + big_endian(p2) + big_endian(p3)
        + big_endian(p4)
}

/// A command that carries nothing but its id.
pub open spec fn bare(id: u16) -> Seq<u8> {
    frame(id, 0, 0, 0, 0, 0)
}

/// The 16-bit field at position `i` of a reply.
pub open spec fn field_at(reply: Seq<u8>, i: int) -> u16 {
    (reply[2 * i] * 256 + reply[2 * i + 1]) as u16
}

/// The six fields of a reply.
pub open spec fn fields(reply: Seq<u8>) -> Seq<u16> {
    Seq::new(6, |i: int| field_at(reply, i))
}

/// Build a 12-byte command. All fields big-endian.
pub fn cmd(cmd_id: u16, p0: u16, p1: u16, p2: u16, p3: u16, p4: u16) -> (r: [u8; 12])
    ensures
        r@ == frame(cmd_id, p0, p1, p2, p3, p4),
{
    let r = [
        (cmd_id / 256) as u8,
        (cmd_id % 256) as u8,
        (p0 / 256) as u8,
        (p0 % 256) as u8,
        (p1 / 256) as u8,
        (p1 % 256) as u8,
        (p2 / 256) as u8,
        (p2 % 256) as u8,
        (p3 / 256) as u8,
        (p3 % 256) as u8,
        (p4 / 256) as u8,
        (p4 % 256) as u8,
    ];
    proof {
        reveal(frame);
    }
    assert(r@ =~= frame(cmd_id, p0, p1, p2, p3, p4));
    r
}

fn word(reply: &[u8], i: usize) -> (r: u16)
    requires
        i < 6,
        reply@.len() >= 12,
    ensures
        r == field_at(reply@, i as int),
{
    (reply[i * 2] as u16) * 256 + reply[i * 2 + 1] as u16
}

/// Split a 12-byte reply into its command id and five parameters. Anything
/// shorter is not a reply; bytes beyond the twelfth are ignored.
pub fn parse(reply: &[u8]) -> (r: Option<Fields>)
    ensures
        reply@.len() < 12 ==> r is None,
        reply@.len() >= 12 ==> r is Some && r->0@ == fields(reply@),
{
    if reply.len() < 12 {
        return None;
    }
    let out = [
        word(reply, 0),
        word(reply, 1),
        word(reply, 2),
        word(reply, 3),
        word(reply, 4),
        word(reply, 5),
    ];
    assert(out@ =~= fields(reply@));
    Some(out)
}

/// 0x0206 frame carrying a MOPA pulse width in nanoseconds. The width is a
/// 16-bit field: higher bits do not travel.
pub fn mopa_pulse_ns(ns: u32) -> (r: [u8; 12])
    ensures
        r@ == frame(CMD_MOPA_PULSE, MOPA_SPI_HDR, (ns % 0x10000) as u16, 0, 0, 0),
{
    cmd(CMD_MOPA_PULSE, MOPA_SPI_HDR, (ns % 0x10000) as u16, 0, 0, 0)
}

// ---- power ----------------------------------------------------------------

/// What a marking frequency and a pulse width come to on the board's clock,
/// rounded to whole numbers.
#[derive(Clone, Copy, PartialEq, Eq, Structural, Debug)]
pub struct PulseTicks {
    /// Ticks of the 48 MHz clock in one period.
    pub period: u32,
    /// Ticks in one pulse.
    pub width: i64,
    /// Half the frequency in kilohertz.
    pub half_khz: i64,
}

/// The width that travels: its low 16 bits.
pub open spec fn wire_width(t: PulseTicks) -> int {
    t.width as int % 0x10000
}

/// CMD 0x0210. Period and width are each split across two parameters:
/// Param1 is half the frequency, then the high byte of the period; Param2 the
/// low byte of the period, then the high byte of the width; Param3 the low byte
/// of the width, then the power byte.
pub open spec fn power_frame(t: PulseTicks, power_byte: u8, wait: u16) -> Seq<u8> {
    let w = wire_width(t);
    frame(
        CMD_POWER,
        0,
        ((t.half_khz as int % 256) * 256 + (t.period / 256) % 256) as u16,
        ((t.period % 256) * 256 + w / 256) as u16,
        ((w % 256) * 256 + power_byte) as u16,
        wait,
    )
}

/// The low 16 bits of a signed number.
pub(crate) fn low_word(v: i64) -> (r: u32)
    ensures
        r == v as int % 0x10000,
{
    let r: i64 = v & 0xFFFF;
    assert(r == v % 0x10000 && 0 <= r < 0x10000) by (bit_vector)
        requires
            r == v & 0xFFFF,
    ;
    r as u32
}

/// The low 8 bits of a signed number.
pub(crate) fn low_byte(v: i64) -> (r: u8)
    ensures
        r == v as int % 256,
{
    let r: i64 = v & 0xFF;
    assert(r == v % 256 && 0 <= r < 256) by (bit_vector)
        requires
            r == v & 0xFF,
    ;
    r as u8
}

fn pack_power(t: PulseTicks, power_byte: u8, wait: u16) -> (r: ([u8; 12], u32, u32))
    ensures
        r.0@ == power_frame(t, power_byte, wait),
        r.1 == t.period,
        r.2 == wire_width(t),
{
    let width: u32 = low_word(t.width);
    let f: u32 = low_byte(t.half_khz) as u32;
    let p1: u16 = (f * 256 + (t.period / 256) % 256) as u16;
    let p2: u16 = ((t.period % 256) * 256 + width / 256) as u16;
    let p3: u16 = ((width % 256) * 256 + power_byte as u32) as u16;
    (cmd(CMD_POWER, 0, p1, p2, p3, wait), t.period, width)
}

/// The power byte of a percentage, given as 255 times the percentage without
/// its fraction: a hundredth of that, towards zero, low eight bits.
pub open spec fn percent_byte(pct_255: i64) -> u8 {
    let q = if pct_255 >= 0 {
        pct_255 as int / 100
    } else {
        -((-pct_255) as int / 100)
    };
    (q % 256) as u8
}

/// The power byte of a percentage.
pub fn byte_of_percent(pct_255: i64) -> (r: u8)
    ensures
        r == percent_byte(pct_255),
{
    if pct_255 >= 0 {
        low_byte(pct_255 / 100)
    } else {
        let m: u64 = if pct_255 == i64::MIN {
            0x8000_0000_0000_0000
        } else {
            (-pct_255) as u64
        };
        low_byte(-((m / 100) as i64))
    }
}

/// CMD 0x0210, the marking power and frequency word, power as a percentage.
/// Gives the bytes, the period and the width in ticks.
pub fn set_power_0210(t: PulseTicks, pct_255: i64, wait: u16) -> (r: ([u8; 12], u32, u32))
    ensures
        r.0@ == power_frame(t, percent_byte(pct_255), wait),
        r.1 == t.period,
        r.2 == wire_width(t),
{
    pack_power(t, byte_of_percent(pct_255), wait)
}

/// 0x0210 with an explicit 8-bit power word instead of a percentage.
///
/// For fiber that byte appears on the parallel power pins P0..P7. The width is
/// still the PWM duty on the marking line: this command programs the marking
/// PWM generator whatever else it is used for, so a width other than 0 puts a
/// live modulated signal on the laser control pin.
pub fn set_power_raw(t: PulseTicks, power_byte: u8, wait: u16) -> (r: [u8; 12])
    ensures
        r@ == power_frame(t, power_byte, wait),
{
    pack_power(t, power_byte, wait).0
}

// ---- laws -----------------------------------------------------------------

/// A reply that echoes a command gives back the command's fields.
pub proof fn law_parse_reads_what_cmd_wrote(
    id: u16,
    p0: u16,
    p1: u16,
    p2: u16,
    p3: u16,
    p4: u16,
)
    ensures
        frame(id, p0, p1, p2, p3, p4).len() == 12,
        fields(frame(id, p0, p1, p2, p3, p4)) == seq![id, p0, p1, p2, p3, p4],
{
    reveal(frame);
    let b = frame(id, p0, p1, p2, p3, p4);
    assert(fields(b) =~= seq![id, p0, p1, p2, p3, p4]);
}

/// Twelve bytes are the command of their own fields: no two commands share a
/// frame, and every frame is a command.
pub proof fn law_cmd_writes_what_parse_read(reply: Seq<u8>)
    requires
        reply.len() == 12,
    ensures
        ({
            let f = fields(reply);
            frame(f[0], f[1], f[2], f[3], f[4], f[5]) == reply
        }),
{
    reveal(frame);
    let f = fields(reply);
    assert(frame(f[0], f[1], f[2], f[3], f[4], f[5]) =~= reply);
}

/// Two MOPA widths below 65536 ns never share a frame.
pub proof fn law_mopa_width_survives(a: u16, b: u16)
    requires
        frame(CMD_MOPA_PULSE, MOPA_SPI_HDR, a, 0, 0, 0) == frame(
            CMD_MOPA_PULSE,
            MOPA_SPI_HDR,
            b,
            0,
            0,
            0,
        ),
    ensures
        a == b,
{
    law_parse_reads_what_cmd_wrote(CMD_MOPA_PULSE, MOPA_SPI_HDR, a, 0, 0, 0);
    law_parse_reads_what_cmd_wrote(CMD_MOPA_PULSE, MOPA_SPI_HDR, b, 0, 0, 0);
    assert(seq![CMD_MOPA_PULSE, MOPA_SPI_HDR, a, 0u16, 0, 0][2] == seq![
        CMD_MOPA_PULSE,
        MOPA_SPI_HDR,
        b,
        0u16,
        0,
        0,
    ][2]);
}

/// The power command carries the low 16 bits of the period, the width and the
/// power byte, and each can be read back from the frame.
pub proof fn law_power_frame_carries_the_settings(t: PulseTicks, power_byte: u8, wait: u16)
    ensures
        power_frame(t, power_byte, wait).len() == 12,
        ({
            let f = fields(power_frame(t, power_byte, wait));
            &&& f[0] == CMD_POWER
            &&& (f[2] % 256) * 256 + f[3] / 256 == t.period % 0x10000
            &&& (f[3] % 256) * 256 + f[4] / 256 == wire_width(t)
            &&& f[4] % 256 == power_byte
            &&& f[5] == wait
        }),
{
    let w = wire_width(t);
    law_parse_reads_what_cmd_wrote(
        CMD_POWER,
        0,
        ((t.half_khz as int % 256) * 256 + (t.period / 256) % 256) as u16,
        ((t.period % 256) * 256 + w / 256) as u16,
        ((w % 256) * 256 + power_byte) as u16,
        wait,
    );
}

} // verus!
