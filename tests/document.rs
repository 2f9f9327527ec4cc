use bess::block::core_state::{Core, Execution, Locations, Model, Pointer, Registers, Version};
use bess::block::end::End;
use bess::block::info::Info;
use bess::block::name::Name;
use bess::block::{Block, Body, Data, Ident};
use bess::de::{Decode, Deserializer};
use bess::ser::Encode;
use bess::{from_bytes, to_bytes, Bess, Error};

const BYTES: &[u8] = &[
    // Bess: Blocks
    // Bess: Block: NAME
    b'N', b'A', b'M', b'E', // head.ident
    0x04, 0x00, 0x00, 0x00, // head.len
    b'b', b'e', b's', b's', // body.name
    // Bess: Block: INFO
    b'I', b'N', b'F', b'O', // head.ident
    0x12, 0x00, 0x00, 0x00, // head.len
    b'B', b'E', b'S', b'S', // body.info.title
    b' ', b'T', b'e', b's', // ...
    b't', b'i', b'n', b'g', // ...
    b' ', b'R', b'o', b'm', // ...
    0xcd, 0xab,             // body.info.gchk
    // Bess: Block: CORE
    b'C', b'O', b'R', b'E', // head.ident
    0xd0, 0x00, 0x00, 0x00, // head.len
    0x01, 0x00,             // body.core.version.major
    0x01, 0x00,             // body.core.version.minor
    b'D', b' ', b' ', b' ', // body.core.model
    0x00, 0x01,             // body.core.reg.pc
    0xb0, 0x01,             // body.core.reg.af
    0x13, 0x00,             // body.core.reg.bc
    0xd8, 0x00,             // body.core.reg.de
    0x4d, 0x01,             // body.core.reg.hl
    0xfe, 0xff,             // body.core.reg.sp
    0x01,                   // body.core.reg.ime
    0xe0,                   // body.core.reg.ie
    0x00,                   // body.core.reg.exe
    0x00,                   // reserved
                            // body.core.reg.mmio
    0xff, 0x00, 0x7e, 0xff, // ... 0xff00
    0xcf, 0x00, 0x00, 0xf8, // ... 0xff04
    0xff, 0xff, 0xff, 0xff, // ... 0xff08
    0xff, 0xff, 0xff, 0xe1, // ... 0xff0c
    0x00, 0x80, 0xf3, 0xc1, // ... 0xff10
    0x87, 0xff, 0x00, 0x00, // ... 0xff14
    0x00, 0x00, 0x00, 0x00, // ... 0xff18
    0x00, 0x00, 0x00, 0xff, // ... 0xff1c
    0x00, 0x00, 0x00, 0x00, // ... 0xff20
    0x77, 0xf3, 0x80, 0xff, // ... 0xff24
    0xff, 0xff, 0xff, 0xff, // ... 0xff28
    0xff, 0xff, 0xff, 0xff, // ... 0xff2c
    0x00, 0x00, 0x00, 0x00, // ... 0xff30
    0x00, 0x00, 0x00, 0x00, // ... 0xff34
    0x00, 0x00, 0x00, 0x00, // ... 0xff38
    0x00, 0x00, 0x00, 0x00, // ... 0xff3c
    0x91, 0x01, 0x00, 0x00, // ... 0xff40
    0x99, 0x00, 0x00, 0xfc, // ... 0xff44
    0x00, 0x00, 0x00, 0x00, // ... 0xff48
    0xff, 0xff, 0xff, 0xff, // ... 0xff4c
    0xfe, 0xff, 0xff, 0xff, // ... 0xff50
    0xff, 0xff, 0xff, 0xff, // ... 0xff54
    0xff, 0xff, 0xff, 0xff, // ... 0xff58
    0xff, 0xff, 0xff, 0xff, // ... 0xff5c
    0xff, 0xff, 0xff, 0xff, // ... 0xff60
    0xff, 0xff, 0xff, 0xff, // ... 0xff64
    0xff, 0xff, 0xff, 0xff, // ... 0xff68
    0xff, 0xff, 0xff, 0xff, // ... 0xff6c
    0xff, 0xff, 0xff, 0xff, // ... 0xff70
    0xff, 0xff, 0xff, 0xff, // ... 0xff74
    0xff, 0xff, 0xff, 0xff, // ... 0xff78
    0xff, 0xff, 0xff, 0xff, // ... 0xff7c
    0x00, 0x20, 0x00, 0x00, // body.core.mem.wram.len
    0x00, 0xa0, 0x00, 0x00, // body.core.mem.wram.ptr
    0x00, 0x20, 0x00, 0x00, // body.core.mem.vram.len
    0x00, 0x80, 0x00, 0x00, // body.core.mem.vram.ptr
    0x00, 0x20, 0x00, 0x00, // body.core.mem.eram.len
    0x00, 0xc0, 0x00, 0x00, // body.core.mem.eram.ptr
    0xa0, 0x00, 0x00, 0x00, // body.core.mem.oam.len
    0x00, 0xfe, 0x00, 0x00, // body.core.mem.oam.ptr
    0x7f, 0x00, 0x00, 0x00, // body.core.mem.hram.len
    0x80, 0xff, 0x00, 0x00, // body.core.mem.hram.ptr
    0x00, 0x00, 0x00, 0x00, // body.core.mem.bgp.len
    0x00, 0x00, 0x00, 0x00, // body.core.mem.bgp.ptr
    0x00, 0x00, 0x00, 0x00, // body.core.mem.obj.len
    0x00, 0x00, 0x00, 0x00, // body.core.mem.obj.ptr
    // Bess: Block: END
    b'E', b'N', b'D', b' ', // head.ident
    0x00, 0x00, 0x00, 0x00, // head.len
    // Bess: Footer
    0x00, 0x00, 0x00, 0x00, // end.start
    b'B', b'E', b'S', b'S', // end.magic
];

const MMIO: [u8; 128] = [
    0xff, 0x00, 0x7e, 0xff, 0xcf, 0x00, 0x00, 0xf8, // 0xff00
    0xff, 0xff, 0xff, 0xff, 0xff, 0xff, 0xff, 0xe1, // 0xff08
    0x00, 0x80, 0xf3, 0xc1, 0x87, 0xff, 0x00, 0x00, // 0xff10
    0x00, 0x00, 0x00, 0x00, 0x00, 0x00, 0x00, 0xff, // 0xff18
    0x00, 0x00, 0x00, 0x00, 0x77, 0xf3, 0x80, 0xff, // 0xff20
    0xff, 0xff, 0xff, 0xff, 0xff, 0xff, 0xff, 0xff, // 0xff28
    0x00, 0x00, 0x00, 0x00, 0x00, 0x00, 0x00, 0x00, // 0xff30
    0x00, 0x00, 0x00, 0x00, 0x00, 0x00, 0x00, 0x00, // 0xff38
    0x91, 0x01, 0x00, 0x00, 0x99, 0x00, 0x00, 0xfc, // 0xff40
    0x00, 0x00, 0x00, 0x00, 0xff, 0xff, 0xff, 0xff, // 0xff48
    0xfe, 0xff, 0xff, 0xff, 0xff, 0xff, 0xff, 0xff, // 0xff50
    0xff, 0xff, 0xff, 0xff, 0xff, 0xff, 0xff, 0xff, // 0xff58
    0xff, 0xff, 0xff, 0xff, 0xff, 0xff, 0xff, 0xff, // 0xff60
    0xff, 0xff, 0xff, 0xff, 0xff, 0xff, 0xff, 0xff, // 0xff68
    0xff, 0xff, 0xff, 0xff, 0xff, 0xff, 0xff, 0xff, // 0xff70
    0xff, 0xff, 0xff, 0xff, 0xff, 0xff, 0xff, 0xff, // 0xff78
];

fn sample_core() -> Core {
    Core {
        version: Version { major: 1, minor: 1 },
        model: Model(*b"D   "),
        reg: Registers {
            pc: 0x0100,
            af: 0x01b0,
            bc: 0x0013,
            de: 0x00d8,
            hl: 0x014d,
            sp: 0xfffe,
            ime: true,
            ie: 0xe0,
            exe: Execution::Running,
            mmio: MMIO,
        },
                mem: Locations {
            wram: Pointer { len: 0x2000, ptr: 0xa000, },
            vram: Pointer { len: 0x2000, ptr: 0x8000, },
            eram: Pointer { len: 0x2000, ptr: 0xc000, },
            oam:  Pointer { len: 0x00a0, ptr: 0xfe00, },
            hram: Pointer { len: 0x007f, ptr: 0xff80, },
            bgp:  Pointer { len: 0, ptr: 0 },
            obj:  Pointer { len: 0, ptr: 0 },
        },
    }
}

fn setup() -> Bess {
    Bess::builder()
        .name("bess")
        .info(Info::new(*b"BESS Testing Rom", 0xabcd))
        .core_block(sample_core())
        .build(vec![])
        .unwrap()
}

fn idents(bess: &Bess) -> Vec<[u8; 4]> {
    bess.blocks().iter().map(|b| b.ident().bytes()).collect()
}

#[test]
fn builder_works() {
    setup();
}

#[test]
fn builder_serialize_works() {
    let test = setup();
    let found = test.to_bytes();
    let expect = BYTES;

    assert_eq!(found, expect);
}

#[test]
fn mod_builder_serialize_works() {
    let test = from_bytes(BYTES).unwrap();
    let expect = setup();

    assert_eq!(test.to_bytes(), expect.to_bytes());
}

#[test]
fn sample_document_has_its_layout() {
    let bytes = setup().to_bytes();
    assert_eq!(bytes.len(), 270);
    assert_eq!(&bytes[bytes.len() - 8..], &[0x00, 0x00, 0x00, 0x00, 0x42, 0x45, 0x53, 0x53]);
    assert_eq!(u32::from_le_bytes(*b"BESS"), bess::MAGIC);
}

#[test]
fn decoded_sample_holds_its_fields() {
    let bess = from_bytes(BYTES).unwrap();
    assert!(bess.context().is_empty());
    assert_eq!(idents(&bess), vec![*b"NAME", *b"INFO", *b"CORE", *b"END "]);
    let lens: Vec<u32> = bess.blocks().iter().map(|b| b.len()).collect();
    assert_eq!(lens, vec![4, 18, 208, 0]);
    match bess.blocks()[0].body() {
        Body::Name(name) => assert_eq!(name.as_str(), "bess"),
        other => panic!("unexpected body {:?}", other),
    }
    match bess.blocks()[1].body() {
        Body::Info(info) => {
            assert_eq!(&info.title(), b"BESS Testing Rom");
            assert_eq!(info.gchk(), 0xabcd);
        }
        other => panic!("unexpected body {:?}", other),
    }
    match bess.blocks()[2].body() {
        Body::Core(c) => assert_eq!(*c, sample_core()),
        other => panic!("unexpected body {:?}", other),
    }
    assert!(matches!(bess.blocks()[3].body(), Body::End(_)));
}

#[test]
fn header_matches_body() {
    let name = Block::from(Name::new("emulator 1.0"));
    assert_eq!(name.len(), 12);
    assert_eq!(name.ident().bytes(), *b"NAME");
    let info = Block::from(Info::new([0; 16], 7));
    assert_eq!(info.len(), 18);
    let c = Block::from(sample_core());
    assert_eq!(c.len(), 208);
    assert_eq!(c.ident().bytes(), *b"CORE");
    let end = Block::from(End);
    assert_eq!(end.len(), 0);
    assert_eq!(Name::new("abc").header().len(), 3);
    assert_eq!(Core::ident(), Ident::new(*b"CORE"));
}

#[test]
fn missing_core_is_required() {
    let r = Bess::builder().name("bess").build(vec![1, 2, 3]);
    match r {
        Err(Error::Required(ident)) => assert_eq!(ident.bytes(), *b"CORE"),
        other => panic!("unexpected result {:?}", other),
    }
}

#[test]
fn core_alone_builds() {
    let bess = Bess::builder().core_block(sample_core()).build(vec![]).unwrap();
    assert_eq!(idents(&bess), vec![*b"CORE", *b"END "]);
}

#[test]
fn block_order_is_fixed() {
    for (with_name, with_info) in [(false, false), (false, true), (true, false), (true, true)] {
        let mut b = Bess::builder().block(End).core_block(sample_core());
        if with_info {
            b = b.info(Info::new(*b"0123456789abcdef", 1));
        }
        if with_name {
            b = b.name("x");
        }
        let bess = b.block(Name::new("extra")).build(vec![0xaa]).unwrap();
        let mut expect = Vec::new();
        if with_name {
            expect.push(*b"NAME");
        }
        if with_info {
            expect.push(*b"INFO");
        }
        expect.extend([*b"CORE", *b"END ", *b"NAME", *b"END "]);
        assert_eq!(idents(&bess), expect);
    }
}

#[test]
fn context_is_kept_before_blocks() {
    let ctx = vec![0xde, 0xad, 0xbe, 0xef, 0x00];
    let bess = Bess::builder().core_block(sample_core()).build(ctx.clone()).unwrap();
    let bytes = to_bytes(&bess);
    assert_eq!(&bytes[..5], &ctx[..]);
    assert_eq!(&bytes[bytes.len() - 8..bytes.len() - 4], &[5, 0, 0, 0]);
    let back = from_bytes(&bytes).unwrap();
    assert_eq!(back.context(), &ctx[..]);
    assert_eq!(back.to_bytes(), bytes);
}

fn unknown_stream() -> Vec<u8> {
    let mut bytes = vec![0x11, 0x22];
    bytes.extend_from_slice(b"XTRA");
    bytes.extend_from_slice(&[3, 0, 0, 0, 7, 8, 9]);
    bytes.extend_from_slice(b"NAME");
    bytes.extend_from_slice(&[2, 0, 0, 0]);
    bytes.extend_from_slice(b"hi");
    bytes.extend_from_slice(b"END ");
    bytes.extend_from_slice(&[0, 0, 0, 0]);
    bytes.extend_from_slice(&[2, 0, 0, 0]);
    bytes.extend_from_slice(b"BESS");
    bytes
}

#[test]
fn unknown_blocks_are_kept() {
    let bytes = unknown_stream();
    let bess = from_bytes(&bytes).unwrap();
    assert_eq!(bess.context(), &[0x11, 0x22]);
    assert_eq!(idents(&bess), vec![*b"XTRA", *b"NAME", *b"END "]);
    match bess.blocks()[0].body() {
        Body::Unknown(ident, data) => {
            assert_eq!(ident.bytes(), *b"XTRA");
            assert_eq!(data, &vec![7, 8, 9]);
        }
        other => panic!("unexpected body {:?}", other),
    }
    assert_eq!(bess.blocks()[0].len(), 3);
    match bess.blocks()[1].body() {
        Body::Name(name) => assert_eq!(name.as_str(), "hi"),
        other => panic!("unexpected body {:?}", other),
    }
}

#[test]
fn reencoding_reproduces_input() {
    let bytes = unknown_stream();
    assert_eq!(from_bytes(&bytes).unwrap().to_bytes(), bytes);
    assert_eq!(from_bytes(BYTES).unwrap().to_bytes(), BYTES);
}

#[test]
fn round_trip_keeps_document() {
    let bess = Bess::builder()
        .info(Info::new(*b"ROM TITLE       ", 0x1234))
        .core_block(sample_core())
        .block(Name::new("after"))
        .build(vec![1, 2, 3])
        .unwrap();
    let bytes = bess.to_bytes();
    let back = from_bytes(&bytes).unwrap();
    assert_eq!(idents(&back), vec![*b"INFO", *b"CORE", *b"NAME", *b"END "]);
    assert_eq!(back.context(), &[1, 2, 3]);
    assert_eq!(back.to_bytes(), bytes);
}

#[test]
fn short_buffer_is_too_short() {
    for len in 0..8 {
        let bytes = vec![0u8; len];
        assert!(matches!(from_bytes(&bytes), Err(Error::TooShort)));
    }
}

#[test]
fn overlong_block_is_too_short() {
    let mut bytes = Vec::new();
    bytes.extend_from_slice(b"XTRA");
    bytes.extend_from_slice(&[9, 0, 0, 0, 1, 2, 3]);
    bytes.extend_from_slice(&[0, 0, 0, 0]);
    bytes.extend_from_slice(b"BESS");
    assert!(matches!(from_bytes(&bytes), Err(Error::TooShort)));
    let mut bytes = Vec::new();
    bytes.extend_from_slice(b"END ");
    bytes.extend_from_slice(&[0, 0]);
    bytes.extend_from_slice(&[0, 0, 0, 0]);
    bytes.extend_from_slice(b"BESS");
    assert!(matches!(from_bytes(&bytes), Err(Error::TooShort)));
}

#[test]
fn start_past_footer_is_too_short() {
    let mut bytes = vec![0u8; 4];
    bytes.extend_from_slice(&[5, 0, 0, 0]);
    bytes.extend_from_slice(b"BESS");
    assert!(matches!(from_bytes(&bytes), Err(Error::TooShort)));
}

#[test]
fn wrong_magic_is_rejected() {
    let mut bytes = BYTES.to_vec();
    let n = bytes.len();
    bytes[n - 1] = b'X';
    assert!(matches!(from_bytes(&bytes), Err(Error::Message(_))));
}

#[test]
fn malformed_bodies_are_rejected() {
    let core_at = 12 + 26;
    // IME neither 0 nor 1
    let mut bytes = BYTES.to_vec();
    bytes[core_at + 8 + 20] = 2;
    assert!(matches!(from_bytes(&bytes), Err(Error::Message(_))));
    // Execution state out of range
    let mut bytes = BYTES.to_vec();
    bytes[core_at + 8 + 22] = 3;
    assert!(matches!(from_bytes(&bytes), Err(Error::Message(_))));
    // Reserved byte not zero
    let mut bytes = BYTES.to_vec();
    bytes[core_at + 8 + 23] = 1;
    assert!(matches!(from_bytes(&bytes), Err(Error::Message(_))));
    // Name that is not UTF-8
    let mut bytes = BYTES.to_vec();
    bytes[8] = 0xff;
    assert!(matches!(from_bytes(&bytes), Err(Error::Message(_))));
}

#[test]
fn known_bodies_must_fill_their_length() {
    let mut bytes = Vec::new();
    bytes.extend_from_slice(b"INFO");
    bytes.extend_from_slice(&[3, 0, 0, 0, 1, 2, 3]);
    bytes.extend_from_slice(&[0, 0, 0, 0]);
    bytes.extend_from_slice(b"BESS");
    assert!(matches!(from_bytes(&bytes), Err(Error::TooShort)));
    let mut bytes = Vec::new();
    bytes.extend_from_slice(b"END ");
    bytes.extend_from_slice(&[1, 0, 0, 0, 0]);
    bytes.extend_from_slice(&[0, 0, 0, 0]);
    bytes.extend_from_slice(b"BESS");
    assert!(matches!(from_bytes(&bytes), Err(Error::Message(_))));
}

#[test]
fn core_reads_back_field_by_field() {
    let mut ser = bess::ser::Serializer::new();
    sample_core().encode(&mut ser);
    let bytes = ser.into_bytes();
    assert_eq!(bytes.len(), 208);
    assert_eq!(&bytes[..], &BYTES[38 + 8..38 + 8 + 208]);
    let mut de = Deserializer::from_bytes(&bytes);
    assert_eq!(Core::decode(&mut de).unwrap(), sample_core());
    let mut de = Deserializer::from_bytes(&bytes[..207]);
    assert!(matches!(Core::decode(&mut de), Err(Error::TooShort)));
}

#[test]
fn name_from_bytes() {
    assert_eq!(Name::from_bytes(b"SameBoy v0.16").unwrap().as_str(), "SameBoy v0.16");
    assert!(matches!(Name::from_bytes(&[0xc3]), Err(Error::Message(_))));
}

#[test]
fn ident_as_text() {
    assert_eq!(Ident::new(*b"CORE").to_string(), "CORE");
    assert_eq!(Ident::new([0xff, 0, 0, 0]).to_string(), "None");
    assert!(Ident::new(*b"END ").same_as(&End::ident()));
    assert!(!Ident::new(*b"END ").same_as(&Info::ident()));
}
