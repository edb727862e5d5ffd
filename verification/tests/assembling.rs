use mmachine::assembler::{
    assemble, encode_command, find_mnemonic, find_payload, find_register, generate_binary,
    parse_data, parse_line, parse_text, populate_labels, resolve, to_bytes, AssemblyError,
    AssemblyErrorKind, Labels, Statement,
};
use mmachine::microcodes::{INSTRUCTION, REG};
use mmachine::text::{is_spelled, parse_u16, split_whitespace, to_lowercase};

fn words_of(source: &str) -> Vec<u16> {
    let ast = parse_text(source.as_bytes()).unwrap();
    let mut labels = Labels::new();
    populate_labels(&ast, &mut labels).unwrap();
    generate_binary(&ast, &labels).unwrap()
}

fn error_of(source: &str) -> AssemblyError {
    assemble(source.as_bytes()).unwrap_err()
}

const OPERATIONS: [(&str, INSTRUCTION, u16); 24] = [
    ("hlt", INSTRUCTION::HLT, 0),
    ("mov", INSTRUCTION::MOV, 1),
    ("add", INSTRUCTION::ADD, 2),
    ("sub", INSTRUCTION::SUB, 3),
    ("mul", INSTRUCTION::MUL, 4),
    ("div", INSTRUCTION::DIV, 5),
    ("call", INSTRUCTION::CALL, 6),
    ("je", INSTRUCTION::JE, 7),
    ("jne", INSTRUCTION::JNE, 8),
    ("jg", INSTRUCTION::JG, 9),
    ("jge", INSTRUCTION::JGE, 10),
    ("jl", INSTRUCTION::JL, 11),
    ("jle", INSTRUCTION::JLE, 12),
    ("push", INSTRUCTION::PUSH, 13),
    ("pop", INSTRUCTION::POP, 14),
    ("out", INSTRUCTION::OUT, 15),
    ("in", INSTRUCTION::IN, 16),
    ("int", INSTRUCTION::INT, 18),
    ("eoi", INSTRUCTION::EOI, 19),
    ("inc", INSTRUCTION::INC, 20),
    ("dec", INSTRUCTION::DEC, 21),
    ("load", INSTRUCTION::LOAD, 22),
    ("store", INSTRUCTION::STORE, 23),
    ("ldcnst", INSTRUCTION::LDCNST, 24),
];

const REGISTERS: [(&str, REG, u16); 8] = [
    ("a", REG::A, 0),
    ("b", REG::B, 1),
    ("c", REG::C, 2),
    ("d", REG::D, 3),
    ("e", REG::E, 4),
    ("pc", REG::PC, 5),
    ("sp", REG::SP, 6),
    ("inst", REG::INST, 7),
];

#[test]
fn every_two_operand_instruction_is_opcode_source_destination() {
    for (mnemonic, op, code) in OPERATIONS {
        if op == INSTRUCTION::LDCNST {
            continue;
        }
        for (source, _, s) in REGISTERS {
            for (dest, _, d) in REGISTERS {
                let words = words_of(&format!("{} {} {}", mnemonic, source, dest));
                assert_eq!(words, vec![(code << 10) | (s << 5) | d]);
            }
        }
    }
}

#[test]
fn mnemonics_and_registers_are_looked_up() {
    for (mnemonic, op, code) in OPERATIONS {
        assert_eq!(find_mnemonic(mnemonic.as_bytes()), Some(op));
        assert_eq!(op.code(), code as u32);
        assert_eq!(INSTRUCTION::from_u32(code as u32), Some(op));
    }
    for (name, reg, code) in REGISTERS {
        assert_eq!(find_register(name.as_bytes()), Some(reg));
        assert_eq!(reg.code(), code as u32);
        assert_eq!(REG::from_u32(code as u32), Some(reg));
    }
    assert_eq!(find_mnemonic(b"jmp"), None);
    assert_eq!(find_mnemonic(b""), None);
    assert_eq!(find_mnemonic(b"HLT"), None);
    assert_eq!(find_register(b"f"), None);
    assert_eq!(INSTRUCTION::from_u32(17), None);
    assert_eq!(INSTRUCTION::from_u32(25), None);
    assert_eq!(REG::from_u32(8), None);
}

#[test]
fn single_operand_goes_to_destination_except_push() {
    assert_eq!(words_of("pop c"), vec![(14 << 10) | 2]);
    assert_eq!(words_of("inc sp"), vec![(20 << 10) | 6]);
    assert_eq!(words_of("je d"), vec![(7 << 10) | 3]);
    assert_eq!(words_of("push c"), vec![(13 << 10) | (2 << 5)]);
}

#[test]
fn no_operand_and_too_many_operands_leave_fields_zero() {
    assert_eq!(words_of("hlt"), vec![0]);
    assert_eq!(words_of("mov"), vec![1 << 10]);
    assert_eq!(words_of("mov a b c"), vec![1 << 10]);
    assert_eq!(encode_command(INSTRUCTION::ADD, &[REG::B, REG::C, REG::D]), 2 << 10);
    assert_eq!(encode_command(INSTRUCTION::ADD, &[REG::B, REG::C]), (2 << 10) | (1 << 5) | 2);
}

#[test]
fn data_directive_emits_one_word_per_character() {
    assert_eq!(words_of("data \"ABC\""), vec![0x0041, 0x0042, 0x0043]);
    assert_eq!(
        assemble(b"data \"ABC\"").unwrap(),
        vec![0x00, 0x41, 0x00, 0x42, 0x00, 0x43]
    );
    assert_eq!(words_of("DATA \"Hi there!\"").len(), 9);
    assert_eq!(words_of("data \"a 1\"   ; text"), vec![0x61, 0x20, 0x31]);
}

#[test]
fn data_directive_joins_tokens_with_single_spaces() {
    assert_eq!(words_of("data \"a \t  b\""), vec![0x61, 0x20, 0x62]);
    assert_eq!(words_of("data x \"ok\" \"no\""), vec![0x6f, 0x6b]);
}

#[test]
fn data_payload_is_the_leftmost_quoted_run() {
    assert_eq!(find_payload(b"\"abc\""), Some(b"abc".to_vec()));
    assert_eq!(find_payload(b"\"\"a\""), Some(b"a".to_vec()));
    assert_eq!(find_payload(b"\"a-b\"\"cd\""), Some(b"cd".to_vec()));
    // the closing quote of a rejected text may open the next one
    assert_eq!(find_payload(b"\"a-b\" \"cd\""), Some(b" ".to_vec()));
    assert_eq!(find_payload(b"x\"a\"\"b\""), Some(b"a".to_vec()));
    assert_eq!(find_payload(b"\"\""), None);
    assert_eq!(find_payload(b"\"abc"), None);
    assert_eq!(find_payload(b"abc"), None);
    assert_eq!(find_payload(b"\"a_b\""), None);
    assert_eq!(find_payload(b""), None);
}

#[test]
fn malformed_data_directive_is_an_error() {
    assert_eq!(
        error_of("hlt\ndata abc\n"),
        AssemblyError { kind: AssemblyErrorKind::WrongDataFormat, index: 1 }
    );
    assert_eq!(error_of("data").kind, AssemblyErrorKind::WrongDataFormat);
    assert_eq!(error_of("data \"\"").kind, AssemblyErrorKind::WrongDataFormat);
    assert_eq!(error_of("data \"a,b\"").kind, AssemblyErrorKind::WrongDataFormat);
    assert!(parse_data(&[b"\"x".to_vec(), b"y\"".to_vec()]).is_ok());
    assert!(parse_data(&[]).is_err());
}

#[test]
fn label_resolves_to_word_index() {
    let words = words_of("start: mov a b\njmp: ldcnst pc start\n");
    assert_eq!(words, vec![(1 << 10) | 1, (24 << 10) | 5, 0]);
    let words = words_of("hlt\nstart: mov a b\njmp: ldcnst pc start\nldcnst a jmp");
    assert_eq!(words, vec![0, (1 << 10) | 1, (24 << 10) | 5, 1, 24 << 10, 2]);
    let words = words_of("start:\nmov a b\njmp:\nldcnst pc start\nldcnst a jmp\n");
    assert_eq!(words, vec![(1 << 10) | 1, (24 << 10) | 5, 0, 24 << 10, 1]);
}

#[test]
fn labels_count_words_of_every_statement() {
    let words = words_of("hlt\nldcnst a 1\ndata \"abc\"\nhere:\nldcnst b here\n");
    assert_eq!(*words.last().unwrap(), 6);
    assert_eq!(words.len(), 8);
}

#[test]
fn forward_and_repeated_labels() {
    assert_eq!(words_of("ldcnst a end\nhlt\nend:\n"), vec![24 << 10, 3, 0]);
    // the later definition of a name replaces the earlier one
    assert_eq!(words_of("x:\nhlt\nx:\nldcnst a x\n"), vec![0, 24 << 10, 1]);
}

#[test]
fn label_table_insert_and_get() {
    let mut labels = Labels::new();
    assert_eq!(labels.get(b"a"), None);
    labels.insert(b"a".to_vec(), 1);
    labels.insert(b"b".to_vec(), 2);
    labels.insert(b"a".to_vec(), 3);
    assert_eq!(labels.get(b"a"), Some(3));
    assert_eq!(labels.get(b"b"), Some(2));
    assert_eq!(labels.get(b"c"), None);
    assert_eq!(labels.get(b""), None);
}

#[test]
fn constants_are_decimal_words_or_labels() {
    let mut labels = Labels::new();
    labels.insert(b"loop".to_vec(), 9);
    labels.insert(b"70000".to_vec(), 4);
    assert_eq!(resolve(b"42", &labels), Ok(42));
    assert_eq!(resolve(b"+42", &labels), Ok(42));
    assert_eq!(resolve(b"65535", &labels), Ok(65535));
    assert_eq!(resolve(b"loop", &labels), Ok(9));
    assert_eq!(resolve(b"70000", &labels), Ok(4));
    assert_eq!(resolve(b"65536", &labels), Err(AssemblyErrorKind::MalformedNumber));
    assert_eq!(resolve(b"-1", &labels), Err(AssemblyErrorKind::MalformedNumber));
    assert_eq!(resolve(b"12x", &labels), Err(AssemblyErrorKind::MalformedNumber));
    assert_eq!(resolve(b"+", &labels), Err(AssemblyErrorKind::MalformedNumber));
    assert_eq!(resolve(b"nowhere", &labels), Err(AssemblyErrorKind::UnknownLabel));
    assert_eq!(resolve(b"", &labels), Err(AssemblyErrorKind::UnknownLabel));
}

#[test]
fn decimal_words() {
    assert_eq!(parse_u16(b"0"), Some(0));
    assert_eq!(parse_u16(b"007"), Some(7));
    assert_eq!(parse_u16(b"65535"), Some(65535));
    assert_eq!(parse_u16(b"+65535"), Some(65535));
    assert_eq!(parse_u16(b"65536"), None);
    assert_eq!(parse_u16(b"99999999999999999999"), None);
    assert_eq!(parse_u16(b""), None);
    assert_eq!(parse_u16(b"+"), None);
    assert_eq!(parse_u16(b"-0"), None);
    assert_eq!(parse_u16(b"1 "), None);
    assert_eq!(parse_u16(b"0x10"), None);
    for text in ["0", "12", "+5", "000", "65535", "65536", "-3", "a", "1a", "", "+", "4294967296"] {
        assert_eq!(parse_u16(text.as_bytes()), text.parse::<u16>().ok());
    }
}

#[test]
fn unknown_label_and_malformed_number_are_errors() {
    assert_eq!(
        error_of("hlt\nldcnst a nowhere\n"),
        AssemblyError { kind: AssemblyErrorKind::UnknownLabel, index: 1 }
    );
    assert_eq!(
        error_of("x:\nhlt\nldcnst a 70000\n"),
        AssemblyError { kind: AssemblyErrorKind::MalformedNumber, index: 2 }
    );
}

#[test]
fn unknown_mnemonic_is_an_error() {
    assert_eq!(
        error_of("hlt\n\n  ; nothing\njmp a\nfoo\n"),
        AssemblyError { kind: AssemblyErrorKind::WrongMnemonic, index: 3 }
    );
    assert_eq!(error_of("a:b").kind, AssemblyErrorKind::WrongMnemonic);
}

#[test]
fn unknown_register_is_an_error() {
    assert_eq!(
        error_of("mov a x"),
        AssemblyError { kind: AssemblyErrorKind::WrongRegister, index: 0 }
    );
    assert_eq!(error_of("ldcnst q 1").kind, AssemblyErrorKind::WrongRegister);
    assert_eq!(error_of("ldcnst q").kind, AssemblyErrorKind::WrongRegister);
    assert_eq!(error_of("push 5").kind, AssemblyErrorKind::WrongRegister);
}

#[test]
fn constant_load_needs_register_and_constant() {
    assert_eq!(error_of("ldcnst").kind, AssemblyErrorKind::MissingOperand);
    assert_eq!(error_of("ldcnst a").kind, AssemblyErrorKind::MissingOperand);
    assert_eq!(words_of("ldcnst a 1 2 3"), vec![24 << 10, 1]);
}

#[test]
fn label_beyond_the_address_space_is_an_error() {
    let mut source = String::from("data \"");
    for _ in 0..65535 {
        source.push('a');
    }
    source.push_str("\"\nlast:\nhlt\nafter:\n");
    assert_eq!(
        error_of(&source),
        AssemblyError { kind: AssemblyErrorKind::ProgramTooLarge, index: 3 }
    );
    let ast = parse_text(source.as_bytes()).unwrap();
    let mut labels = Labels::new();
    let laid_out = populate_labels(&ast, &mut labels);
    assert!(laid_out.is_err());
    assert_eq!(labels.get(b"last"), Some(65535));
    assert_eq!(labels.get(b"after"), None);
}

#[test]
fn comments_blank_lines_and_case() {
    let words = words_of("; a program\n\n   \t\nMOV A b ; move\r\n  Hlt;stop\n;\n");
    assert_eq!(words, vec![(1 << 10) | 1, 0]);
    assert_eq!(words_of("Loop:\nLDCNST PC LOOP\n"), vec![(24 << 10) | 5, 0]);
    assert!(words_of("").is_empty());
    assert!(words_of("\n\n").is_empty());
}

#[test]
fn lines_parse_to_statements() {
    assert!(parse_line(b"   ; only a comment").unwrap().is_empty());
    assert!(parse_line(b"").unwrap().is_empty());
    let parsed = parse_line(b"Start: mov a b").unwrap();
    assert_eq!(parsed.len(), 2);
    match &parsed[0] {
        Statement::Label(name) => assert_eq!(name, &b"start".to_vec()),
        other => panic!("{:?}", other),
    }
    match &parsed[1] {
        Statement::Command(op, args) => {
            assert_eq!(*op, INSTRUCTION::MOV);
            assert_eq!(args, &vec![REG::A, REG::B]);
        }
        other => panic!("{:?}", other),
    }
    let parsed = parse_line(b": x: Y:").unwrap();
    assert_eq!(parsed.len(), 3);
    match &parsed[0] {
        Statement::Label(name) => assert!(name.is_empty()),
        other => panic!("{:?}", other),
    }
    match &parsed[2] {
        Statement::Label(name) => assert_eq!(name, &b"y".to_vec()),
        other => panic!("{:?}", other),
    }
    let parsed = parse_line(b"store A sp ; x").unwrap();
    match &parsed[0] {
        Statement::Command(op, args) => {
            assert_eq!(*op, INSTRUCTION::STORE);
            assert_eq!(args, &vec![REG::A, REG::SP]);
        }
        other => panic!("{:?}", other),
    }
    let parsed = parse_line(b"ldcnst inst Target").unwrap();
    match &parsed[0] {
        Statement::Ldcnst(reg, constant) => {
            assert_eq!(*reg, REG::INST);
            assert_eq!(constant, &b"target".to_vec());
        }
        other => panic!("{:?}", other),
    }
    let parsed = parse_line(b"data \"Ab\"").unwrap();
    match &parsed[0] {
        Statement::Data(bytes) => assert_eq!(bytes, &b"Ab".to_vec()),
        other => panic!("{:?}", other),
    }
    assert_eq!(parse_line(b"here: bogus").unwrap_err(), AssemblyErrorKind::WrongMnemonic);
}

#[test]
fn words_are_written_big_endian() {
    assert_eq!(to_bytes(vec![0x6000, 0x002A, 0xffff]), vec![0x60, 0x00, 0x00, 0x2a, 0xff, 0xff]);
    assert!(to_bytes(vec![]).is_empty());
}

#[test]
fn tokens_and_case() {
    assert_eq!(
        split_whitespace(b"  mov\ta \x0b b\r\n"),
        vec![b"mov".to_vec(), b"a".to_vec(), b"b".to_vec()]
    );
    assert!(split_whitespace(b" \t ").is_empty());
    assert_eq!(to_lowercase(b"MoV a1 Z[`{"), b"mov a1 z[`{".to_vec());
    assert!(is_spelled(b"data", "data"));
    assert!(!is_spelled(b"dat", "data"));
    assert!(!is_spelled(b"date", "data"));
}

#[test]
fn no_image_on_error() {
    assert!(assemble(b"hlt\nbogus\n").is_err());
    assert_eq!(assemble(b"hlt\n").unwrap(), vec![0, 0]);
}

#[test]
fn data_payload_agrees_with_the_pattern() {
    let pattern = regex::Regex::new("\"([a-zA-Z0-9! ]+)\"").unwrap();
    let alphabet = [b'"', b'a', b'Z', b'0', b'!', b' ', b'-', b';'];
    let mut texts: Vec<Vec<u8>> = vec![vec![]];
    let mut from = 0;
    for _ in 0..5 {
        let upto = texts.len();
        for i in from..upto {
            for c in alphabet {
                let mut longer = texts[i].clone();
                longer.push(c);
                texts.push(longer);
            }
        }
        from = upto;
    }
    assert_eq!(texts.len(), 1 + 8 + 64 + 512 + 4096 + 32768);
    for text in &texts {
        let line = String::from_utf8(text.clone()).unwrap();
        let expected = pattern.captures(&line).map(|found| found[1].as_bytes().to_vec());
        assert_eq!(find_payload(text), expected, "{:?}", line);
    }
}

#[test]
fn tokens_and_case_agree_with_the_standard_library() {
    let alphabet = [b' ', b'\t', b'\n', b'\r', 0x0b, 0x0c, b'a', b'Q', b':', b'1'];
    let mut texts: Vec<Vec<u8>> = vec![vec![]];
    let mut from = 0;
    for _ in 0..4 {
        let upto = texts.len();
        for i in from..upto {
            for c in alphabet {
                let mut longer = texts[i].clone();
                longer.push(c);
                texts.push(longer);
            }
        }
        from = upto;
    }
    for text in &texts {
        let line = String::from_utf8(text.clone()).unwrap();
        let expected: Vec<Vec<u8>> =
            line.split_whitespace().map(|token| token.as_bytes().to_vec()).collect();
        assert_eq!(split_whitespace(text), expected, "{:?}", line);
        assert_eq!(to_lowercase(text), line.to_lowercase().into_bytes(), "{:?}", line);
    }
}
