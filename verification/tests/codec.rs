use relay_chat::encoding::{Decoder, Encoder, Instruction, Opcodes, Reader, Writer};
use relay_chat::text::{ascii_string, text_eq};

#[test]
fn test_encoder_and_decoder() {
    let feed = vec![Instruction::ReceiveMessage(
        "frosty".to_string(),
        "stinky spike".to_string(),
    )];

    let encoded = Encoder::from_feed(feed).writer.dump();
    let decoded = Decoder::from_bytes(encoded).feed;
    println!("{:#?}", decoded);
    assert_eq!(
        decoded,
        vec![Instruction::ReceiveMessage(
            "frosty".to_string(),
            "stinky spike".to_string(),
        )]
    );
}

#[test]
fn test_writer_and_reader() {
    let mut writer = Writer::new();
    writer.u64(5000000);
    writer.byte(200);
    writer.short(500);
    writer.u32(100.52f32.to_bits());
    writer.i32(500);
    writer.string("spike stinks");

    let mut reader = Reader::from_bytes(writer.dump());

    let a = reader.u64();
    let b = reader.byte();
    let c = reader.short();
    let d = f32::from_bits(reader.u32());
    let e = reader.i32();
    let f = reader.string();
    println!("{} {} {} {} {} {} ", a, b, c, d, e, f);
    assert_eq!(a, 5000000);
    assert_eq!(b, 200);
    assert_eq!(c, 500);
    assert_eq!(d, 100.52);
    assert_eq!(e, 500);
    assert_eq!(f, "spike stinks");
    assert_eq!(reader.remaining(), 0);
}

#[test]
fn writer_lays_integers_out_big_endian() {
    let mut writer = Writer::new();
    writer.short(0x0102);
    writer.u32(0x0a0b0c0d);
    writer.u64(0x1122334455667788);
    writer.i32(-2);
    assert_eq!(
        writer.dump(),
        vec![
            0x01, 0x02, 0x0a, 0x0b, 0x0c, 0x0d, 0x11, 0x22, 0x33, 0x44, 0x55, 0x66, 0x77, 0x88,
            0xff, 0xff, 0xff, 0xfe
        ]
    );
}

#[test]
fn writer_agrees_with_the_standard_layouts() {
    for num in [0i32, 1, -1, 500, i32::MAX, i32::MIN, -123456] {
        let mut writer = Writer::new();
        writer.i32(num);
        assert_eq!(writer.dump(), num.to_be_bytes().to_vec());
        let mut reader = Reader::from_bytes(writer.dump());
        assert_eq!(reader.i32(), num);
    }
    for num in [0u64, 1, 255, 256, 5000000, u64::MAX, 1 << 32, (1 << 32) - 1] {
        let mut writer = Writer::new();
        writer.u64(num);
        assert_eq!(writer.dump(), num.to_be_bytes().to_vec());
        let mut reader = Reader::from_bytes(writer.dump());
        assert_eq!(reader.u64(), num);
    }
    let mut writer = Writer::new();
    writer.u32(100.52f32.to_bits());
    assert_eq!(writer.dump(), 100.52f32.to_be_bytes().to_vec());
}

#[test]
fn writer_string_is_length_then_text() {
    let mut writer = Writer::new();
    writer.string("hé");
    assert_eq!(writer.dump(), vec![0, 0, 0, 3, b'h', 0xc3, 0xa9]);
}

#[test]
fn dump_with_size_hint_puts_the_length_in_front() {
    let mut writer = Writer::new();
    writer.bytes(&[9, 8, 7]);
    assert_eq!(
        writer.dump_with_size_hint(),
        vec![0, 0, 0, 0, 0, 0, 0, 3, 9, 8, 7]
    );
    assert_eq!(Writer::new().dump_with_size_hint(), vec![0u8; 8]);
}

#[test]
fn reader_bytes_and_has_next() {
    let mut reader = Reader::from_bytes(vec![1, 2, 3, 4, 5]);
    assert!(reader.has_next());
    assert_eq!(reader.bytes(3), &[1, 2, 3]);
    assert_eq!(reader.remaining(), 2);
    assert!(reader.has_next());
    assert_eq!(reader.byte(), 4);
    assert!(!reader.has_next());
    assert!(!Reader::from_bytes(vec![]).has_next());
}

#[test]
fn try_string_leaves_the_cursor_on_failure() {
    // cut short
    let mut reader = Reader::from_bytes(vec![0, 0, 0, 5, b'a', b'b']);
    assert_eq!(reader.try_string(), None);
    assert_eq!(reader.remaining(), 6);
    // negative length
    let mut reader = Reader::from_bytes(vec![0xff, 0xff, 0xff, 0xff, b'a']);
    assert_eq!(reader.try_string(), None);
    assert_eq!(reader.remaining(), 5);
    // not text
    let mut reader = Reader::from_bytes(vec![0, 0, 0, 2, 0xff, 0xfe, 1]);
    assert_eq!(reader.try_string(), None);
    assert_eq!(reader.remaining(), 7);
    // whole
    let mut reader = Reader::from_bytes(vec![0, 0, 0, 2, b'o', b'k', 1]);
    assert_eq!(reader.try_string(), Some("ok".to_string()));
    assert_eq!(reader.remaining(), 1);
}

#[test]
fn encoder_writes_the_opcode_table() {
    let feed = vec![
        Instruction::NOP,
        Instruction::Instantiate("al".to_string()),
        Instruction::SendMessage("hi".to_string()),
        Instruction::ReceiveMessage("al".to_string(), "hi".to_string()),
    ];
    let encoded = Encoder::from_feed(feed).writer.dump();
    assert_eq!(
        encoded,
        vec![
            0, 0, //
            0, 1, 0, 0, 0, 2, b'a', b'l', //
            0, 2, 0, 0, 0, 2, b'h', b'i', //
            0, 3, 0, 0, 0, 2, b'a', b'l', 0, 0, 0, 2, b'h', b'i',
        ]
    );
}

#[test]
fn decode_of_encode_is_the_feed() {
    let feed = vec![
        Instruction::Instantiate("alice".to_string()),
        Instruction::NOP,
        Instruction::SendMessage("".to_string()),
        Instruction::ReceiveMessage("bob".to_string(), "héllo wörld".to_string()),
        Instruction::NOP,
    ];
    let encoded = Encoder::from_feed(feed.clone()).writer.dump();
    assert_eq!(Decoder::from_bytes(encoded).feed, feed);
    assert_eq!(Decoder::from_bytes(vec![]).feed, vec![]);
    assert_eq!(Encoder::from_feed(vec![]).writer.dump(), Vec::<u8>::new());
}

#[test]
fn unknown_opcode_decodes_to_nop_and_takes_two_bytes() {
    // opcode 9, then a whole SendMessage("hi")
    let bytes = vec![0, 9, 0, 2, 0, 0, 0, 2, b'h', b'i'];
    assert_eq!(
        Decoder::from_bytes(bytes).feed,
        vec![Instruction::NOP, Instruction::SendMessage("hi".to_string())]
    );
}

#[test]
fn truncated_field_ends_the_feed() {
    // Instantiate("al"), then SendMessage cut in its text
    let bytes = vec![0, 1, 0, 0, 0, 2, b'a', b'l', 0, 2, 0, 0, 0, 5, b'h'];
    assert_eq!(
        Decoder::from_bytes(bytes).feed,
        vec![Instruction::Instantiate("al".to_string())]
    );
    // a lone byte is no opcode
    assert_eq!(Decoder::from_bytes(vec![7]).feed, vec![]);
    // the second string of ReceiveMessage is missing
    let bytes = vec![0, 3, 0, 0, 0, 1, b'a'];
    assert_eq!(Decoder::from_bytes(bytes).feed, vec![]);
}

#[test]
fn opcodes_map_both_ways() {
    assert_eq!(Opcodes::from_u16(0), Some(Opcodes::NOP));
    assert_eq!(Opcodes::from_u16(1), Some(Opcodes::Instantiate));
    assert_eq!(Opcodes::from_u16(2), Some(Opcodes::SendMessage));
    assert_eq!(Opcodes::from_u16(3), Some(Opcodes::ReceiveMessage));
    assert_eq!(Opcodes::from_u16(4), None);
    assert_eq!(Opcodes::from_u16(u16::MAX), None);
    assert_eq!(Opcodes::ReceiveMessage.code(), 3);
    assert_eq!(Opcodes::NOP.code(), 0);
}

#[test]
fn encodable_instructions_are_recognised() {
    assert!(Instruction::NOP.is_encodable());
    assert!(Instruction::ReceiveMessage("a".to_string(), "b".to_string()).is_encodable());
    assert!(relay_chat::encoding::feed_is_encodable(&vec![
        Instruction::SendMessage("x".to_string())
    ]));
}

#[test]
fn text_fields_must_be_well_formed_utf8() {
    let field = |raw: &[u8]| {
        let mut bytes = vec![0, 2];
        bytes.extend_from_slice(&(raw.len() as i32).to_be_bytes());
        bytes.extend_from_slice(raw);
        bytes
    };
    // an overlong encoding, a surrogate, a value past the last scalar, a lone continuation byte
    for raw in [
        &[0xc0, 0x80][..],
        &[0xed, 0xa0, 0x80][..],
        &[0xf4, 0x90, 0x80, 0x80][..],
        &[0x80][..],
        &[0xe2, 0x82][..],
    ] {
        assert!(String::from_utf8(raw.to_vec()).is_err());
        assert_eq!(Decoder::from_bytes(field(raw)).feed, vec![]);
    }
    for text in ["", "a", "é", "€", "😀", "a€😀é"] {
        assert_eq!(
            Decoder::from_bytes(field(text.as_bytes())).feed,
            vec![Instruction::SendMessage(text.to_string())]
        );
    }
}

#[test]
fn texts_are_compared_by_their_characters() {
    assert!(text_eq("", ""));
    assert!(text_eq("héllo", "héllo"));
    assert!(!text_eq("héllo", "hello"));
    assert!(!text_eq("a", "ab"));
    assert!(!text_eq("ab", "a"));
    assert_eq!(ascii_string(vec![0x68, 0x69]), "hi");
    assert_eq!(ascii_string(vec![]), "");
}

#[test]
fn cursor_stands_behind_what_was_read() {
    // complete instructions only: nothing is left
    let whole = Encoder::from_feed(vec![
        Instruction::NOP,
        Instruction::SendMessage("hi".to_string()),
    ])
    .writer
    .dump();
    assert_eq!(Decoder::from_bytes(whole).reader.remaining(), 0);
    // a lone byte is left as it is
    assert_eq!(Decoder::from_bytes(vec![7]).reader.remaining(), 1);
    // a cut SendMessage: the cursor stands behind its opcode
    let cut = vec![0, 0, 0, 2, 0, 0, 0, 5, b'h'];
    assert_eq!(Decoder::from_bytes(cut).reader.remaining(), 5);
    // a ReceiveMessage whose second string is cut: behind its first string
    let cut = vec![0, 3, 0, 0, 0, 1, b'a', 0, 0, 0, 9, b'x', b'y'];
    let mut decoder = Decoder::from_bytes(cut);
    assert_eq!(decoder.feed, vec![]);
    assert_eq!(decoder.reader.remaining(), 6);
    assert_eq!(decoder.reader.bytes(6), &[0, 0, 0, 9, b'x', b'y']);
}
