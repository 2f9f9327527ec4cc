//! Core state information.

use vstd::bytes::*;
use vstd::prelude::*;

use super::{Body, BodyView, Data, Ident};
use crate::de::{
    decode_spec, lemma_decode_spec, lemma_field_fails, lemma_split, lemma_u16_total,
    lemma_u32_total, lemma_u8_total, Decode, Deserializer, FixedWidth,
};
use crate::error::{Error, Fault, Result};
use crate::ser::{variant_tag, Encode, Serializer};

verus! {

/// `CORE` block.
///
/// Contains both core state information as well as basic information about
/// the BESS version used. This is a **required** block. It comes first,
/// unless `NAME` or `INFO` blocks exist, in which case it comes directly after
/// them.
#[derive(Debug, Clone, Copy, PartialEq, Eq)]
pub struct Core {
    /// BESS major and minor version numbers.
    pub version: Version,
    /// A four-character ASCII model identifier.
    pub model: Model,
    /// Saved values of registers.
    pub reg: Registers,
    /// Large buffer content pointers.
    pub mem: Locations,
}

/// BESS version.
///
/// Both major and minor versions should be 1. Implementations are expected
/// to reject incompatible majors, but still attempt to read newer minors.
#[derive(Debug, Clone, Copy, PartialEq, Eq)]
pub struct Version {
    /// Major BESS version as a 16-bit integer.
    pub major: u16,
    /// Minor BESS version as a 16-bit integer.
    pub minor: u16,
}

/// Model identifier.
///
/// Four characters that identify a Game Boy model: the family (`'G'`, `'S'`
/// or `'C'`), the model within the family, the CPU revision, and a space of
/// padding. An implementation that does not tell models or revisions apart
/// writes a space in their place, so `"GD  "` is a DMG of unspecified
/// revision.
#[derive(Debug, Clone, Copy, PartialEq, Eq)]
pub struct Model(pub [u8; 4]);

/// Memory-mapped registers: the values of every one of them, as the ROM
/// would have written them (128 bytes, 0xFF00 to 0xFF7F).
pub type Mmio = [u8; 128];

/// Register values.
#[derive(Debug, Clone, Copy, PartialEq, Eq)]
pub struct Registers {
    /// The value of the PC register.
    pub pc: u16,
    /// The value of the AF register.
    pub af: u16,
    /// The value of the BC register.
    pub bc: u16,
    /// The value of the DE register.
    pub de: u16,
    /// The value of the HL register.
    pub hl: u16,
    /// The value of the SP register.
    pub sp: u16,
    /// The value of IME (0 or 1).
    pub ime: bool,
    /// The value of the IE register.
    pub ie: u8,
    /// Execution state.
    pub exe: Execution,
    /// The values of every memory-mapped register. On the wire they follow
    /// a reserved byte that is always 0.
    pub mmio: Mmio,
}

/// Execution state.
#[derive(Debug, Clone, Copy, PartialEq, Eq)]
pub enum Execution {
    Running,
    Halted,
    Stopped,
}

/// Locations of large buffers.
///
/// The contents of large buffers are stored outside the BESS structure, so
/// that data of an implementation's native save state can be reused. The
/// offsets are absolute offsets from the start of the save state file.
/// Background and object palette sizes must be 0 for models before the Game
/// Boy Color.
#[derive(Debug, Clone, Copy, PartialEq, Eq)]
pub struct Locations {
    /// WRAM pointer.
    pub wram: Pointer,
    /// VRAM pointer.
    pub vram: Pointer,
    /// ERAM pointer.
    pub eram: Pointer,
    /// OAM pointer.
    pub oam: Pointer,
    /// HRAM pointer.
    pub hram: Pointer,
    /// Background palettes pointer.
    pub bgp: Pointer,
    /// Object palettes pointer.
    pub obj: Pointer,
}

/// Wide pointer to a buffer.
#[derive(Debug, Clone, Copy, PartialEq, Eq)]
pub struct Pointer {
    /// Size of the buffer.
    pub len: u32,
    /// Absolute offset.
    pub ptr: u32,
}

// Version

impl Encode for Version {
    open spec fn spec_encode(&self) -> Seq<u8> {
        self.major.spec_encode() + self.minor.spec_encode()
    }

    fn encode(&self, ser: &mut Serializer) {
        self.major.encode(ser);
        self.minor.encode(ser);
        proof {
            assert(old(ser)@ + self.major.spec_encode() + self.minor.spec_encode() =~= old(ser)@
                + self.spec_encode());
        }
    }
}

impl FixedWidth for Version {
    open spec fn width() -> nat {
        4
    }

    proof fn lemma_width(self) {
        assert(Self::width() == 4);
        self.major.lemma_width();
        self.minor.lemma_width();
        assert(self.major.spec_encode().len() == 2);
        assert(self.minor.spec_encode().len() == 2);
        assert(self.spec_encode() == self.major.spec_encode() + self.minor.spec_encode());
        assert(self.spec_encode().len() == 4);
        assert(Self::width() == 4);
    }

    proof fn lemma_injective(a: Self, b: Self) {
        lemma_split::<u16>(a.major, a.minor.spec_encode(), b.major, b.minor.spec_encode());
        u16::lemma_injective(a.minor, b.minor);
    }
}

impl Version {
    /// Any four bytes are a `Version`.
    proof fn lemma_total(s: Seq<u8>)
        requires
            s.len() >= 4,
        ensures
            decode_spec::<Version>(s) is Ok,
    {
        lemma_auto_spec_u16_to_from_le_bytes();
        let a = s.take(2);
        let b = s.subrange(2, 4);
        assert(a.len() == 2);
        assert(b.len() == 2);
        let v = Version { major: spec_u16_from_le_bytes(a), minor: spec_u16_from_le_bytes(b) };
        assert(v.spec_encode() =~= s.take(4));
        lemma_decode_spec::<Version>(s, v);
    }
}

impl Decode for Version {
    fn decode(de: &mut Deserializer) -> (r: Result<Self>) {
        let ghost s = de@;
        proof {
            assert(Self::width() == 4);
        }
        if de.remaining() < 4 {
            return Err(Error::TooShort);
        }
        proof {
            lemma_u16_total(s);
        }
        let major = u16::decode(de)?;
        proof {
            lemma_u16_total(de@);
        }
        let minor = u16::decode(de)?;
        let v = Version { major, minor };
        proof {
            major.lemma_width();
            minor.lemma_width();
            assert(v.spec_encode() =~= s.take(4));
            lemma_decode_spec::<Version>(s, v);
            assert(de@ =~= s.skip(4));
        }
        Ok(v)
    }
}

// Model

impl Encode for Model {
    open spec fn spec_encode(&self) -> Seq<u8> {
        self.0@
    }

    fn encode(&self, ser: &mut Serializer) {
        self.0.encode(ser);
    }
}

impl FixedWidth for Model {
    open spec fn width() -> nat {
        4
    }

    proof fn lemma_width(self) {
        assert(Self::width() == 4);
        assert(self.0@.len() == 4);
    }

    proof fn lemma_injective(a: Self, b: Self) {
        assert(a.0 =~= b.0);
    }
}

impl Decode for Model {
    fn decode(de: &mut Deserializer) -> (r: Result<Self>) {
        let ghost s = de@;
        proof {
            assert(Self::width() == 4);
        }
        if de.remaining() < 4 {
            return Err(Error::TooShort);
        }
        let v = Model(de.pop_ref());
        proof {
            lemma_decode_spec::<Model>(s, v);
        }
        Ok(v)
    }
}

// Execution

impl Execution {
    /// The index of this variant.
    pub open spec fn index(self) -> u32 {
        match self {
            Execution::Running => 0,
            Execution::Halted => 1,
            Execution::Stopped => 2,
        }
    }
}

impl Encode for Execution {
    open spec fn spec_encode(&self) -> Seq<u8> {
        variant_tag(self.index())
    }

    fn encode(&self, ser: &mut Serializer) {
        let index: u32 = match self {
            Execution::Running => 0,
            Execution::Halted => 1,
            Execution::Stopped => 2,
        };
        ser.serialize_variant(index);
    }
}

impl FixedWidth for Execution {
    open spec fn width() -> nat {
        1
    }

    proof fn lemma_width(self) {
        assert(Self::width() == 1);
        assert(self.spec_encode() == seq![self.index() as u8]);
    }

    proof fn lemma_injective(a: Self, b: Self) {
        assert(a.spec_encode()[0] == b.spec_encode()[0]);
        assert(a.spec_encode()[0] == a.index() as u8);
        assert(b.spec_encode()[0] == b.index() as u8);
    }
}

impl Decode for Execution {
    fn decode(de: &mut Deserializer) -> (r: Result<Self>) {
        let ghost s = de@;
        proof {
            assert(Self::width() == 1);
        }
        let index = match de.deserialize_variant(3) {
            Ok(index) => index,
            Err(e) => {
                proof {
                    if s.len() > 0 {
                        assert forall|v: Execution| v.spec_encode() != s.take(1) by {
                            assert(v.spec_encode()[0] == v.index() as u8);
                        }
                    }
                }
                return Err(e);
            },
        };
        let v = if index == 0 {
            Execution::Running
        } else if index == 1 {
            Execution::Halted
        } else {
            Execution::Stopped
        };
        proof {
            assert(v.spec_encode() =~= s.take(1));
            lemma_decode_spec::<Execution>(s, v);
        }
        Ok(v)
    }
}

// Registers

impl Registers {
    /// The reserved byte between the execution state and the memory-mapped
    /// registers.
    pub open spec fn pad_bytes() -> Seq<u8> {
        seq![0u8]
    }

    /// Where the fields that may fail to decode stand in the wire form.
    proof fn lemma_layout(self)
        ensures
            self.spec_encode().len() == 144,
            self.spec_encode().subrange(12, 13) == self.ime.spec_encode(),
            self.spec_encode().subrange(14, 15) == self.exe.spec_encode(),
            self.spec_encode()[15] == 0,
    {
        self.pc.lemma_width();
        self.af.lemma_width();
        self.bc.lemma_width();
        self.de.lemma_width();
        self.hl.lemma_width();
        self.sp.lemma_width();
        self.exe.lemma_width();
        assert(self.mmio@.len() == 128);
        assert(self.spec_encode().len() == 144);
        assert(self.spec_encode().subrange(12, 13) =~= self.ime.spec_encode());
        assert(self.spec_encode().subrange(14, 15) =~= self.exe.spec_encode());
    }
}

impl Encode for Registers {
    open spec fn spec_encode(&self) -> Seq<u8> {
        self.pc.spec_encode() + (self.af.spec_encode() + (self.bc.spec_encode() + (
        self.de.spec_encode() + (self.hl.spec_encode() + (self.sp.spec_encode() + (
        self.ime.spec_encode() + (self.ie.spec_encode() + (self.exe.spec_encode() + (
        Self::pad_bytes() + self.mmio@)))))))))
    }

    #[verifier::rlimit(50)]
    fn encode(&self, ser: &mut Serializer) {
        let ghost s = ser@;
        self.pc.encode(ser);
        self.af.encode(ser);
        self.bc.encode(ser);
        self.de.encode(ser);
        self.hl.encode(ser);
        self.sp.encode(ser);
        self.ime.encode(ser);
        self.ie.encode(ser);
        self.exe.encode(ser);
        ser.serialize_u8(0);
        self.mmio.encode(ser);
        proof {
            assert(ser@ =~= s + self.spec_encode());
        }
    }
}

impl FixedWidth for Registers {
    open spec fn width() -> nat {
        144
    }

    proof fn lemma_width(self) {
        assert(Self::width() == 144);
        self.lemma_layout();
    }

    proof fn lemma_injective(a: Self, b: Self) {
        let ra1 = a.af.spec_encode() + (a.bc.spec_encode() + (a.de.spec_encode() + (
        a.hl.spec_encode() + (a.sp.spec_encode() + (a.ime.spec_encode() + (a.ie.spec_encode()
            + (a.exe.spec_encode() + (Self::pad_bytes() + a.mmio@))))))));
        let rb1 = b.af.spec_encode() + (b.bc.spec_encode() + (b.de.spec_encode() + (
        b.hl.spec_encode() + (b.sp.spec_encode() + (b.ime.spec_encode() + (b.ie.spec_encode()
            + (b.exe.spec_encode() + (Self::pad_bytes() + b.mmio@))))))));
        lemma_split::<u16>(a.pc, ra1, b.pc, rb1);
        let ra2 = a.bc.spec_encode() + (a.de.spec_encode() + (a.hl.spec_encode() + (
        a.sp.spec_encode() + (a.ime.spec_encode() + (a.ie.spec_encode() + (a.exe.spec_encode()
            + (Self::pad_bytes() + a.mmio@)))))));
        let rb2 = b.bc.spec_encode() + (b.de.spec_encode() + (b.hl.spec_encode() + (
        b.sp.spec_encode() + (b.ime.spec_encode() + (b.ie.spec_encode() + (b.exe.spec_encode()
            + (Self::pad_bytes() + b.mmio@)))))));
        lemma_split::<u16>(a.af, ra2, b.af, rb2);
        let ra3 = a.de.spec_encode() + (a.hl.spec_encode() + (a.sp.spec_encode() + (
        a.ime.spec_encode() + (a.ie.spec_encode() + (a.exe.spec_encode() + (Self::pad_bytes()
            + a.mmio@))))));
        let rb3 = b.de.spec_encode() + (b.hl.spec_encode() + (b.sp.spec_encode() + (
        b.ime.spec_encode() + (b.ie.spec_encode() + (b.exe.spec_encode() + (Self::pad_bytes()
            + b.mmio@))))));
        lemma_split::<u16>(a.bc, ra3, b.bc, rb3);
        let ra4 = a.hl.spec_encode() + (a.sp.spec_encode() + (a.ime.spec_encode() + (
        a.ie.spec_encode() + (a.exe.spec_encode() + (Self::pad_bytes() + a.mmio@)))));
        let rb4 = b.hl.spec_encode() + (b.sp.spec_encode() + (b.ime.spec_encode() + (
        b.ie.spec_encode() + (b.exe.spec_encode() + (Self::pad_bytes() + b.mmio@)))));
        lemma_split::<u16>(a.de, ra4, b.de, rb4);
        let ra5 = a.sp.spec_encode() + (a.ime.spec_encode() + (a.ie.spec_encode() + (
        a.exe.spec_encode() + (Self::pad_bytes() + a.mmio@))));
        let rb5 = b.sp.spec_encode() + (b.ime.spec_encode() + (b.ie.spec_encode() + (
        b.exe.spec_encode() + (Self::pad_bytes() + b.mmio@))));
        lemma_split::<u16>(a.hl, ra5, b.hl, rb5);
        let ra6 = a.ime.spec_encode() + (a.ie.spec_encode() + (a.exe.spec_encode() + (
        Self::pad_bytes() + a.mmio@)));
        let rb6 = b.ime.spec_encode() + (b.ie.spec_encode() + (b.exe.spec_encode() + (
        Self::pad_bytes() + b.mmio@)));
        lemma_split::<u16>(a.sp, ra6, b.sp, rb6);
        let ra7 = a.ie.spec_encode() + (a.exe.spec_encode() + (Self::pad_bytes() + a.mmio@));
        let rb7 = b.ie.spec_encode() + (b.exe.spec_encode() + (Self::pad_bytes() + b.mmio@));
        lemma_split::<bool>(a.ime, ra7, b.ime, rb7);
        let ra8 = a.exe.spec_encode() + (Self::pad_bytes() + a.mmio@);
        let rb8 = b.exe.spec_encode() + (Self::pad_bytes() + b.mmio@);
        lemma_split::<u8>(a.ie, ra8, b.ie, rb8);
        lemma_split::<Execution>(a.exe, Self::pad_bytes() + a.mmio@, b.exe, Self::pad_bytes() + b.mmio@);
        lemma_split::<u8>(0u8, a.mmio@, 0u8, b.mmio@);
        assert(a.mmio =~= b.mmio);
    }
}

impl Decode for Registers {
    #[verifier::rlimit(80)]
    fn decode(de: &mut Deserializer) -> (r: Result<Self>) {
        let ghost s = de@;
        proof {
            assert(Self::width() == 144);
        }
        if de.remaining() < 144 {
            return Err(Error::TooShort);
        }
        proof {
            lemma_u16_total(de@);
        }
        let pc = u16::decode(de)?;
        proof {
            lemma_u16_total(de@);
        }
        let af = u16::decode(de)?;
        proof {
            lemma_u16_total(de@);
        }
        let bc = u16::decode(de)?;
        proof {
            lemma_u16_total(de@);
        }
        let de_ = u16::decode(de)?;
        proof {
            lemma_u16_total(de@);
        }
        let hl = u16::decode(de)?;
        proof {
            lemma_u16_total(de@);
        }
        let sp = u16::decode(de)?;
        let ghost s12 = de@;
        proof {
            assert(s12 =~= s.skip(12));
        }
        let ime = match bool::decode(de) {
            Ok(ime) => ime,
            Err(e) => {
                proof {
                    assert forall|r: Registers| #[trigger]
                        r.spec_encode().subrange(12, 13) == r.ime.spec_encode() by {
                        r.lemma_layout();
                    }
                    lemma_field_fails::<Registers, bool>(s, 12, |r: Registers| r.ime);
                }
                return Err(e);
            },
        };
        proof {
            lemma_u8_total(de@);
        }
        let ie = u8::decode(de)?;
        let ghost s14 = de@;
        proof {
            assert(s14 =~= s.skip(14));
        }
        let exe = match Execution::decode(de) {
            Ok(exe) => exe,
            Err(e) => {
                proof {
                    assert forall|r: Registers| #[trigger]
                        r.spec_encode().subrange(14, 15) == r.exe.spec_encode() by {
                        r.lemma_layout();
                    }
                    lemma_field_fails::<Registers, Execution>(s, 14, |r: Registers| r.exe);
                }
                return Err(e);
            },
        };
        proof {
            lemma_u8_total(de@);
        }
        let pad = u8::decode(de)?;
        if pad != 0 {
            proof {
                assert forall|r: Registers| r.spec_encode() != s.take(144) by {
                    r.lemma_layout();
                    assert(s.take(144)[15] == pad);
                }
            }
            return Err(crate::de::malformed("reserved byte is not zero"));
        }
        let mmio: Mmio = de.pop_ref();
        let v = Registers { pc, af, bc, de: de_, hl, sp, ime, ie, exe, mmio };
        proof {
            v.lemma_layout();
            pc.lemma_width();
            af.lemma_width();
            bc.lemma_width();
            de_.lemma_width();
            hl.lemma_width();
            sp.lemma_width();
            exe.lemma_width();
            assert(v.spec_encode() =~= s.take(144));
            lemma_decode_spec::<Registers>(s, v);
            assert(de@ =~= s.skip(144));
        }
        Ok(v)
    }
}

// Pointer

impl Encode for Pointer {
    open spec fn spec_encode(&self) -> Seq<u8> {
        self.len.spec_encode() + self.ptr.spec_encode()
    }

    fn encode(&self, ser: &mut Serializer) {
        self.len.encode(ser);
        self.ptr.encode(ser);
        proof {
            assert(old(ser)@ + self.len.spec_encode() + self.ptr.spec_encode() =~= old(ser)@
                + self.spec_encode());
        }
    }
}

impl FixedWidth for Pointer {
    open spec fn width() -> nat {
        8
    }

    proof fn lemma_width(self) {
        assert(Self::width() == 8);
        self.len.lemma_width();
        self.ptr.lemma_width();
        assert(self.spec_encode().len() == 8);
    }

    proof fn lemma_injective(a: Self, b: Self) {
        lemma_split::<u32>(a.len, a.ptr.spec_encode(), b.len, b.ptr.spec_encode());
        u32::lemma_injective(a.ptr, b.ptr);
    }
}

impl Pointer {
    /// Any eight bytes are a `Pointer`.
    proof fn lemma_total(s: Seq<u8>)
        requires
            s.len() >= 8,
        ensures
            decode_spec::<Pointer>(s) is Ok,
    {
        lemma_auto_spec_u32_to_from_le_bytes();
        let a = s.take(4);
        let b = s.subrange(4, 8);
        assert(a.len() == 4);
        assert(b.len() == 4);
        let v = Pointer { len: spec_u32_from_le_bytes(a), ptr: spec_u32_from_le_bytes(b) };
        assert(v.spec_encode() =~= s.take(8));
        lemma_decode_spec::<Pointer>(s, v);
    }
}

impl Decode for Pointer {
    fn decode(de: &mut Deserializer) -> (r: Result<Self>) {
        let ghost s = de@;
        proof {
            assert(Self::width() == 8);
        }
        if de.remaining() < 8 {
            return Err(Error::TooShort);
        }
        proof {
            lemma_u32_total(de@);
        }
        let len = u32::decode(de)?;
        proof {
            lemma_u32_total(de@);
        }
        let ptr = u32::decode(de)?;
        let v = Pointer { len, ptr };
        proof {
            len.lemma_width();
            ptr.lemma_width();
            assert(v.spec_encode() =~= s.take(8));
            lemma_decode_spec::<Pointer>(s, v);
            assert(de@ =~= s.skip(8));
        }
        Ok(v)
    }
}

// Locations

impl Encode for Locations {
    open spec fn spec_encode(&self) -> Seq<u8> {
        self.wram.spec_encode() + (self.vram.spec_encode() + (self.eram.spec_encode() + (
        self.oam.spec_encode() + (self.hram.spec_encode() + (self.bgp.spec_encode()
            + self.obj.spec_encode())))))
    }

    fn encode(&self, ser: &mut Serializer) {
        let ghost s = ser@;
        self.wram.encode(ser);
        self.vram.encode(ser);
        self.eram.encode(ser);
        self.oam.encode(ser);
        self.hram.encode(ser);
        self.bgp.encode(ser);
        self.obj.encode(ser);
        proof {
            assert(ser@ =~= s + self.spec_encode());
        }
    }
}

impl FixedWidth for Locations {
    open spec fn width() -> nat {
        56
    }

    proof fn lemma_width(self) {
        assert(Self::width() == 56);
        self.wram.lemma_width();
        self.vram.lemma_width();
        self.eram.lemma_width();
        self.oam.lemma_width();
        self.hram.lemma_width();
        self.bgp.lemma_width();
        self.obj.lemma_width();
        assert(self.spec_encode().len() == 56);
    }

    proof fn lemma_injective(a: Self, b: Self) {
        lemma_split::<Pointer>(
            a.wram,
            a.vram.spec_encode() + (a.eram.spec_encode() + (a.oam.spec_encode() + (
            a.hram.spec_encode() + (a.bgp.spec_encode() + a.obj.spec_encode())))),
            b.wram,
            b.vram.spec_encode() + (b.eram.spec_encode() + (b.oam.spec_encode() + (
            b.hram.spec_encode() + (b.bgp.spec_encode() + b.obj.spec_encode())))),
        );
        lemma_split::<Pointer>(
            a.vram,
            a.eram.spec_encode() + (a.oam.spec_encode() + (a.hram.spec_encode() + (
            a.bgp.spec_encode() + a.obj.spec_encode()))),
            b.vram,
            b.eram.spec_encode() + (b.oam.spec_encode() + (b.hram.spec_encode() + (
            b.bgp.spec_encode() + b.obj.spec_encode()))),
        );
        lemma_split::<Pointer>(
            a.eram,
            a.oam.spec_encode() + (a.hram.spec_encode() + (a.bgp.spec_encode()
                + a.obj.spec_encode())),
            b.eram,
            b.oam.spec_encode() + (b.hram.spec_encode() + (b.bgp.spec_encode()
                + b.obj.spec_encode())),
        );
        lemma_split::<Pointer>(
            a.oam,
            a.hram.spec_encode() + (a.bgp.spec_encode() + a.obj.spec_encode()),
            b.oam,
            b.hram.spec_encode() + (b.bgp.spec_encode() + b.obj.spec_encode()),
        );
        lemma_split::<Pointer>(
            a.hram,
            a.bgp.spec_encode() + a.obj.spec_encode(),
            b.hram,
            b.bgp.spec_encode() + b.obj.spec_encode(),
        );
        lemma_split::<Pointer>(a.bgp, a.obj.spec_encode(), b.bgp, b.obj.spec_encode());
        Pointer::lemma_injective(a.obj, b.obj);
    }
}

impl Decode for Locations {
    fn decode(de: &mut Deserializer) -> (r: Result<Self>) {
        let ghost s = de@;
        proof {
            assert(Self::width() == 56);
        }
        if de.remaining() < 56 {
            return Err(Error::TooShort);
        }
        proof {
            Pointer::lemma_total(de@);
        }
        let wram = Pointer::decode(de)?;
        proof {
            Pointer::lemma_total(de@);
        }
        let vram = Pointer::decode(de)?;
        proof {
            Pointer::lemma_total(de@);
        }
        let eram = Pointer::decode(de)?;
        proof {
            Pointer::lemma_total(de@);
        }
        let oam = Pointer::decode(de)?;
        proof {
            Pointer::lemma_total(de@);
        }
        let hram = Pointer::decode(de)?;
        proof {
            Pointer::lemma_total(de@);
        }
        let bgp = Pointer::decode(de)?;
        proof {
            Pointer::lemma_total(de@);
        }
        let obj = Pointer::decode(de)?;
        let v = Locations { wram, vram, eram, oam, hram, bgp, obj };
        proof {
            v.lemma_width();
            assert(v.spec_encode() =~= s.take(56));
            lemma_decode_spec::<Locations>(s, v);
            assert(de@ =~= s.skip(56));
        }
        Ok(v)
    }
}

// Core

impl Encode for Core {
    open spec fn spec_encode(&self) -> Seq<u8> {
        self.version.spec_encode() + (self.model.spec_encode() + (self.reg.spec_encode()
            + self.mem.spec_encode()))
    }

    fn encode(&self, ser: &mut Serializer) {
        let ghost s = ser@;
        self.version.encode(ser);
        self.model.encode(ser);
        self.reg.encode(ser);
        self.mem.encode(ser);
        proof {
            assert(ser@ =~= s + self.spec_encode());
        }
    }
}

impl FixedWidth for Core {
    open spec fn width() -> nat {
        208
    }

    proof fn lemma_width(self) {
        assert(Self::width() == 208);
        self.version.lemma_width();
        self.model.lemma_width();
        self.reg.lemma_width();
        self.mem.lemma_width();
        assert(self.spec_encode().len() == 208);
    }

    proof fn lemma_injective(a: Self, b: Self) {
        lemma_split::<Version>(
            a.version,
            a.model.spec_encode() + (a.reg.spec_encode() + a.mem.spec_encode()),
            b.version,
            b.model.spec_encode() + (b.reg.spec_encode() + b.mem.spec_encode()),
        );
        lemma_split::<Model>(
            a.model,
            a.reg.spec_encode() + a.mem.spec_encode(),
            b.model,
            b.reg.spec_encode() + b.mem.spec_encode(),
        );
        lemma_split::<Registers>(a.reg, a.mem.spec_encode(), b.reg, b.mem.spec_encode());
        Locations::lemma_injective(a.mem, b.mem);
    }
}

impl Core {
    /// Where the records inside stand in the wire form.
    proof fn lemma_layout(self)
        ensures
            self.spec_encode().subrange(8, 152) == self.reg.spec_encode(),
            self.spec_encode().subrange(152, 208) == self.mem.spec_encode(),
    {
        self.version.lemma_width();
        self.model.lemma_width();
        self.reg.lemma_width();
        self.mem.lemma_width();
        assert(self.spec_encode().subrange(8, 152) =~= self.reg.spec_encode());
        assert(self.spec_encode().subrange(152, 208) =~= self.mem.spec_encode());
    }
}

impl Decode for Core {
    fn decode(de: &mut Deserializer) -> (r: Result<Self>) {
        let ghost s = de@;
        proof {
            assert(Self::width() == 208);
        }
        if de.remaining() < 208 {
            return Err(Error::TooShort);
        }
        proof {
            Version::lemma_total(de@);
        }
        let version = Version::decode(de)?;
        let model = Model(de.pop_ref());
        let ghost s8 = de@;
        let reg = match Registers::decode(de) {
            Ok(reg) => reg,
            Err(e) => {
                proof {
                    assert(s8 =~= s.skip(8));
                    assert forall|c: Core| #[trigger]
                        c.spec_encode().subrange(8, 152) == c.reg.spec_encode() by {
                        c.lemma_layout();
                    }
                    lemma_field_fails::<Core, Registers>(s, 8, |c: Core| c.reg);
                }
                return Err(e);
            },
        };
        let ghost s152 = de@;
        let mem = match Locations::decode(de) {
            Ok(mem) => mem,
            Err(e) => {
                proof {
                    assert(s152 =~= s.skip(152));
                    assert forall|c: Core| #[trigger]
                        c.spec_encode().subrange(152, 208) == c.mem.spec_encode() by {
                        c.lemma_layout();
                    }
                    lemma_field_fails::<Core, Locations>(s, 152, |c: Core| c.mem);
                }
                return Err(e);
            },
        };
        let v = Core { version, model, reg, mem };
        proof {
            v.lemma_width();
            assert(v.spec_encode() =~= s.take(208));
            lemma_decode_spec::<Core>(s, v);
            assert(de@ =~= s.skip(208));
        }
        Ok(v)
    }
}

impl Data for Core {
    open spec fn spec_ident() -> Seq<u8> {
        super::core_ident()
    }

    open spec fn body_view(&self) -> BodyView {
        BodyView::Core(*self)
    }

    proof fn lemma_body_view(&self) {
    }

    fn ident() -> (r: Ident) {
        Ident::new([0x43u8, 0x4f, 0x52, 0x45])
    }

    fn len(&self) -> (r: u32) {
        proof {
            self.lemma_width();
        }
        208
    }

    fn into_body(self) -> (r: Body) {
        proof {
            self.lemma_width();
        }
        Body::Core(self)
    }
}

} // verus!
